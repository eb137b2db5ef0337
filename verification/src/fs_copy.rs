//! Which entries of a directory are copied or removed with it, and what that does to its files.

use crate::text::{find_from, has_prefix, lemma_find_from, lemma_find_is, occurs_at, same};
use crate::views::views;
use vstd::prelude::*;

verus! {

/// An entry is left out if it stands directly in the directory that is worked on, and has one of the
/// given names. Deeper entries are never left out for their names.
pub open spec fn left_out(depth: nat, name: Seq<char>, skip_names: Seq<Seq<char>>) -> bool {
    depth == 0 && skip_names.contains(name)
}

/// Whether an entry is left out. `depth` counts the directories between it and the one that is worked on.
pub fn is_left_out(depth: u32, name: &str, skip_names: &Vec<String>) -> (r: bool)
    ensures
        r == left_out(depth as nat, name@, views(skip_names@)),
{
    if depth > 0 {
        return false;
    }
    let mut i: usize = 0;
    while i < skip_names.len()
        invariant
            depth == 0,
            i <= skip_names@.len(),
            forall|j: int| 0 <= j < i ==> (#[trigger] skip_names@[j])@ != name@,
        decreases skip_names.len() - i,
    {
        if same(skip_names[i].as_str(), name) {
            assert(views(skip_names@)[i as int] == name@);
            return true;
        }
        i = i + 1;
    }
    assert(!views(skip_names@).contains(name@)) by {
        if views(skip_names@).contains(name@) {
            let k = choose|k: int| 0 <= k < views(skip_names@).len() && views(skip_names@)[k] == name@;
            assert(skip_names@[k]@ == name@);
        }
    }
    false
}

/// The entry at the top of a directory that a path in it begins with.
pub open spec fn top_name(path: Seq<char>) -> Seq<char> {
    match find_from(path, "/"@, 0) {
        Some(i) => path.take(i),
        None => path,
    }
}

/// The path of a file below a directory.
pub open spec fn below(dir: Seq<char>, path: Seq<char>) -> Seq<char> {
    dir + "/"@ + path
}

/// A path that leads below a directory.
pub open spec fn is_below(dir: Seq<char>, path: Seq<char>) -> bool {
    has_prefix(path, dir + "/"@)
}

/// The path, from a directory, of a file below it.
pub open spec fn path_from(dir: Seq<char>, path: Seq<char>) -> Seq<char> {
    path.skip((dir + "/"@).len() as int)
}

/// A file that copying the files to a directory writes.
pub open spec fn is_copied(
    files: Map<Seq<char>, Seq<u8>>,
    dir: Seq<char>,
    skip_names: Seq<Seq<char>>,
    path: Seq<char>,
) -> bool {
    &&& is_below(dir, path)
    &&& files.dom().contains(path_from(dir, path))
    &&& !skip_names.contains(top_name(path_from(dir, path)))
}

/// The files, by their paths, after all but those under the given names were copied to a directory among
/// them.
pub open spec fn copied_to(
    files: Map<Seq<char>, Seq<u8>>,
    dir: Seq<char>,
    skip_names: Seq<Seq<char>>,
) -> Map<Seq<char>, Seq<u8>> {
    Map::new(
        |path: Seq<char>| files.dom().contains(path) || is_copied(files, dir, skip_names, path),
        |path: Seq<char>|
            if is_copied(files, dir, skip_names, path) {
                files[path_from(dir, path)]
            } else {
                files[path]
            },
    )
}

/// The files after all but those under the given names were removed.
pub open spec fn wiped(files: Map<Seq<char>, Seq<u8>>, skip_names: Seq<Seq<char>>) -> Map<Seq<char>, Seq<u8>> {
    Map::new(
        |path: Seq<char>| files.dom().contains(path) && skip_names.contains(top_name(path)),
        |path: Seq<char>| files[path],
    )
}

/// The files after all in a directory among them were copied to the top.
pub open spec fn copied_from(files: Map<Seq<char>, Seq<u8>>, dir: Seq<char>) -> Map<Seq<char>, Seq<u8>> {
    Map::new(
        |path: Seq<char>| files.dom().contains(path) || files.dom().contains(below(dir, path)),
        |path: Seq<char>|
            if files.dom().contains(below(dir, path)) {
                files[below(dir, path)]
            } else {
                files[path]
            },
    )
}

/// The entry at the top of a state that is neither backed up nor wiped: the backups themselves.
pub open spec fn skipped() -> Seq<Seq<char>> {
    seq!["backups"@]
}

/// A text that names an entry of a directory, and no path beyond it.
pub open spec fn is_entry_name(s: Seq<char>) -> bool {
    s.len() > 0 && !s.contains('/') && s != "."@ && s != ".."@
}

/// The same file, or none, at a path.
pub open spec fn same_at(a: Map<Seq<char>, Seq<u8>>, b: Map<Seq<char>, Seq<u8>>, path: Seq<char>) -> bool {
    &&& a.dom().contains(path) <==> b.dom().contains(path)
    &&& a.dom().contains(path) ==> a[path] == b[path]
}

/// Files that were copied to an empty directory under one of the names come back by removing all but what
/// is under the names, and copying the directory to the top, whatever has become of all other files since:
/// what was not there is gone again. Under the names nothing changes.
pub proof fn law_copies_come_back(
    before: Map<Seq<char>, Seq<u8>>,
    later: Map<Seq<char>, Seq<u8>>,
    dir: Seq<char>,
    skip_names: Seq<Seq<char>>,
)
    requires
        skip_names.contains(top_name(dir)),
        find_from(dir, "/"@, 0) is Some,
        forall|path: Seq<char>| #[trigger] before.dom().contains(path) ==> !is_below(dir, path),
        forall|path: Seq<char>|
            is_below(dir, path) ==> #[trigger] same_at(later, copied_to(before, dir, skip_names), path),
    ensures
        forall|path: Seq<char>|
            !skip_names.contains(top_name(path)) ==> #[trigger] same_at(
                copied_from(wiped(later, skip_names), dir),
                before,
                path,
            ),
        forall|path: Seq<char>|
            skip_names.contains(top_name(path)) ==> #[trigger] same_at(
                copied_from(wiped(later, skip_names), dir),
                later,
                path,
            ),
{
    let kept = wiped(later, skip_names);
    let saved = copied_to(before, dir, skip_names);
    assert forall|path: Seq<char>| true implies {
        &&& #[trigger] is_below(dir, below(dir, path))
        &&& path_from(dir, below(dir, path)) == path
        &&& top_name(below(dir, path)) == top_name(dir)
    } by {
        lemma_below(dir, path);
    }
    assert forall|path: Seq<char>| true implies {
        &&& kept.dom().contains(#[trigger] below(dir, path)) <==> before.dom().contains(path) && !skip_names.contains(
            top_name(path),
        )
        &&& kept.dom().contains(below(dir, path)) ==> kept[below(dir, path)] == before[path]
    } by {
        let b = below(dir, path);
        lemma_below(dir, path);
        assert(is_below(dir, b));
        assert(same_at(later, saved, b));
        assert(!before.dom().contains(b));
    }
    assert forall|path: Seq<char>| !skip_names.contains(top_name(path)) implies #[trigger] same_at(
        copied_from(kept, dir),
        before,
        path,
    ) by {
        assert(kept.dom().contains(below(dir, path)) <==> before.dom().contains(path));
    }
    assert forall|path: Seq<char>| skip_names.contains(top_name(path)) implies #[trigger] same_at(
        copied_from(kept, dir),
        later,
        path,
    ) by {
        assert(!kept.dom().contains(below(dir, path)));
    }
}

/// What is in the directory of the backups is skipped, and nothing else is.
pub proof fn lemma_in_backups(path: Seq<char>)
    ensures
        find_from("backups/"@ + path, "/"@, 0) is Some,
        top_name("backups/"@ + path) == "backups"@,
        forall|name: Seq<char>| #[trigger] skipped().contains(name) <==> name == "backups"@,
{
    let dir = "backups/"@ + path;
    assert(skipped()[0] == "backups"@);
    assert forall|name: Seq<char>| #[trigger] skipped().contains(name) <==> name == "backups"@ by {}
    reveal_strlit("/");
    reveal_strlit("backups");
    reveal_strlit("backups/");
    assert(occurs_at(dir, "/"@, 7)) by {
        assert(dir.subrange(7, 8) =~= "/"@);
    }
    assert forall|j: int| 0 <= j < 7 implies !#[trigger] occurs_at(dir, "/"@, j) by {
        assert(dir.subrange(j, j + 1)[0] == dir[j]);
    }
    lemma_find_is(dir, "/"@, 0, 7);
    assert(dir.take(7) =~= "backups"@);
}

proof fn lemma_below(dir: Seq<char>, path: Seq<char>)
    requires
        find_from(dir, "/"@, 0) is Some,
    ensures
        is_below(dir, below(dir, path)),
        path_from(dir, below(dir, path)) == path,
        top_name(below(dir, path)) == top_name(dir),
{
    let b = below(dir, path);
    assert(b.take((dir + "/"@).len() as int) =~= dir + "/"@);
    assert(path_from(dir, b) =~= path);
    lemma_find_from(dir, "/"@, 0);
    let i = find_from(dir, "/"@, 0)->0;
    reveal_strlit("/");
    assert(occurs_at(b, "/"@, i)) by {
        assert(b.subrange(i, i + 1) =~= dir.subrange(i, i + 1));
    }
    assert forall|j: int| 0 <= j < i implies !#[trigger] occurs_at(b, "/"@, j) by {
        assert(b.subrange(j, j + 1) =~= dir.subrange(j, j + 1));
        assert(!occurs_at(dir, "/"@, j));
    }
    lemma_find_is(b, "/"@, 0, i);
    assert(b.take(i) =~= dir.take(i));
}

} // verus!
