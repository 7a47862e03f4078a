//! The file sandbox of the scripting API: a path that a plugin names is
//! resolved against the project root and refused when it is absolute or
//! leads out of the root.
//!
//! Paths are lists of component names (a Unix path split at `/`); the root
//! is the project root after `canonicalize`, so its components are those
//! after the leading `/`.
use crate::builder::keyed::str_eq;
use crate::text::{chars_of, nonempty_parts, split_nonempty, split_on, string_push_str};
use vstd::prelude::*;

verus! {

/// Whether `Path::new(s).is_absolute()` on Unix: it starts with `/`.
pub open spec fn is_absolute(s: Seq<char>) -> bool {
    s.len() > 0 && s[0] == '/'
}

/// The component names of a relative path (`Path::components`): the
/// non-empty pieces between `/`.
pub open spec fn path_parts(s: Seq<char>) -> Seq<Seq<char>> {
    nonempty_parts(split_on(s, '/'))
}

/// `base` after one component: `..` goes up a level (not above the file
/// system root), `.` stays, any other name goes down into it.
pub open spec fn step(base: Seq<Seq<char>>, part: Seq<char>) -> Seq<Seq<char>> {
    if part == ".."@ {
        if base.len() > 0 {
            base.drop_last()
        } else {
            base
        }
    } else if part == "."@ {
        base
    } else {
        base.push(part)
    }
}

/// `base` after each component of `parts` in turn.
pub open spec fn walk(base: Seq<Seq<char>>, parts: Seq<Seq<char>>) -> Seq<Seq<char>>
    decreases parts.len(),
{
    if parts.len() == 0 {
        base
    } else {
        step(walk(base, parts.drop_last()), parts.last())
    }
}

/// Whether `root` is a leading part of `p` (`Path::starts_with`).
pub open spec fn under(p: Seq<Seq<char>>, root: Seq<Seq<char>>) -> bool {
    root.len() <= p.len() && p.take(root.len() as int) == root
}

/// Whether the place a path really reaches leaves the root: `reached` is that
/// place for a path that does not exist yet (the canonical form of its
/// deepest existing ancestor followed by the names after it), looked at only
/// when `existing` is `None`.
pub open spec fn link_escapes(
    root: Seq<Seq<char>>,
    existing: Option<Seq<Seq<char>>>,
    reached: Option<Seq<Seq<char>>>,
) -> bool {
    match (existing, reached) {
        (None, Some(r)) => !under(r, root),
        _ => false,
    }
}

/// What `resolve_path` gives: `existing` is the canonical path of the
/// joined path where it exists on disk, and `None` where it does not; then
/// the path is followed by name, and refused as well when `reached`, where it
/// is known, shows that a link on the way leads out of the root.
pub open spec fn resolve_spec(
    root: Seq<Seq<char>>,
    relative: Seq<char>,
    existing: Option<Seq<Seq<char>>>,
    reached: Option<Seq<Seq<char>>>,
) -> Result<Seq<Seq<char>>, Seq<char>> {
    if is_absolute(relative) {
        Err("不允许绝对路径: "@ + relative)
    } else {
        let full = match existing {
            Some(c) => c,
            None => walk(root, path_parts(relative)),
        };
        if under(full, root) && !link_escapes(root, existing, reached) {
            Ok(full)
        } else {
            Err("路径越界: "@ + relative + " 不在项目根目录内"@)
        }
    }
}

/// `root` after the component names of `parts`.
fn walk_exec(root: &Vec<String>, parts: &Vec<String>) -> (r: Vec<String>)
    ensures
        r.deep_view() == walk(root.deep_view(), parts.deep_view()),
{
    let mut cur = crate::builder::graph::clone_strings(root);
    let mut i: usize = 0;
    assert(parts.deep_view().take(0) =~= Seq::<Seq<char>>::empty());
    while i < parts.len()
        invariant
            i <= parts.len(),
            cur.deep_view() == walk(root.deep_view(), parts.deep_view().take(i as int)),
        decreases parts.len() - i,
    {
        let part = &parts[i];
        let ghost before = cur.deep_view();
        if str_eq(part.as_str(), "..") {
            if cur.len() > 0 {
                cur.pop();
                assert(cur.deep_view() =~= before.drop_last());
            }
        } else if !str_eq(part.as_str(), ".") {
            cur.push(part.clone());
            assert(cur.deep_view() =~= before.push(part@));
        }
        assert(parts.deep_view().take(i + 1).drop_last() =~= parts.deep_view().take(i as int));
        assert(parts.deep_view()[i as int] == part@);
        i += 1;
    }
    assert(parts.deep_view().take(parts.len() as int) =~= parts.deep_view());
    cur
}

/// Whether `root` is a leading part of `p`.
fn under_exec(p: &Vec<String>, root: &Vec<String>) -> (r: bool)
    ensures
        r == under(p.deep_view(), root.deep_view()),
{
    if root.len() > p.len() {
        return false;
    }
    let mut i: usize = 0;
    while i < root.len()
        invariant
            i <= root.len() <= p.len(),
            forall|k: int| 0 <= k < i ==> p.deep_view()[k] == root.deep_view()[k],
        decreases root.len() - i,
    {
        if !str_eq(p[i].as_str(), root[i].as_str()) {
            assert(p.deep_view().take(root.len() as int)[i as int] != root.deep_view()[i as int]);
            return false;
        }
        i += 1;
    }
    assert(p.deep_view().take(root.len() as int) =~= root.deep_view());
    true
}

/// Resolves `relative` against the project `root` (both as component
/// lists).  `existing` is the canonical form of the joined path where that
/// path exists; otherwise the components are followed by name, and `reached`,
/// where known, is where the path really leads once the links among its
/// existing ancestors are followed.  Absolute paths, and paths that end
/// outside the root, are refused with the message a script sees.
pub fn resolve_path(
    root: &Vec<String>,
    relative: &str,
    existing: Option<Vec<String>>,
    reached: Option<Vec<String>>,
) -> (r: Result<Vec<String>, String>)
    ensures
        match r {
            Ok(p) => resolve_spec(
                root.deep_view(),
                relative@,
                opt_deep(existing),
                opt_deep(reached),
            ) == Ok::<Seq<Seq<char>>, Seq<char>>(p.deep_view()),
            Err(e) => resolve_spec(
                root.deep_view(),
                relative@,
                opt_deep(existing),
                opt_deep(reached),
            ) == Err::<Seq<Seq<char>>, Seq<char>>(e@),
        },
{
    let rv = chars_of(relative);
    if rv.len() > 0 && rv[0] == '/' {
        let mut msg = "不允许绝对路径: ".to_owned();
        string_push_str(&mut msg, relative);
        return Err(msg);
    }
    let (full, escapes) = match existing {
        Some(c) => (c, false),
        None => {
            let parts = split_nonempty(&rv, '/');
            let escapes = match &reached {
                Some(r) => !under_exec(r, root),
                None => false,
            };
            (walk_exec(root, &parts), escapes)
        },
    };
    if under_exec(&full, root) && !escapes {
        Ok(full)
    } else {
        let mut msg = "路径越界: ".to_owned();
        string_push_str(&mut msg, relative);
        string_push_str(&mut msg, " 不在项目根目录内");
        Err(msg)
    }
}

/// An optional list of strings as an optional sequence of views.
pub open spec fn opt_deep(o: Option<Vec<String>>) -> Option<Seq<Seq<char>>> {
    match o {
        Some(v) => Some(v.deep_view()),
        None => None,
    }
}

/// A path whose components go only downwards (no `..`) and that is not
/// absolute is never refused when it does not exist yet and no link on the
/// way leads out of the root: it resolves to the root followed by its names,
/// `.` left out.
pub proof fn law_downward_path_accepted(
    root: Seq<Seq<char>>,
    relative: Seq<char>,
    reached: Option<Seq<Seq<char>>>,
)
    requires
        !is_absolute(relative),
        forall|k: int| 0 <= k < path_parts(relative).len() ==> #[trigger] path_parts(relative)[k] != ".."@,
        reached matches Some(r) ==> under(r, root),
    ensures
        resolve_spec(root, relative, None, reached) == Ok::<Seq<Seq<char>>, Seq<char>>(
            walk(root, path_parts(relative)),
        ),
        under(walk(root, path_parts(relative)), root),
{
    lemma_walk_down(root, path_parts(relative));
}

proof fn lemma_walk_down(root: Seq<Seq<char>>, parts: Seq<Seq<char>>)
    requires
        forall|k: int| 0 <= k < parts.len() ==> #[trigger] parts[k] != ".."@,
    ensures
        under(walk(root, parts), root),
    decreases parts.len(),
{
    if parts.len() > 0 {
        let d = parts.drop_last();
        assert forall|k: int| 0 <= k < d.len() implies #[trigger] d[k] != ".."@ by {
            assert(d[k] == parts[k]);
        }
        lemma_walk_down(root, d);
        let w = walk(root, d);
        assert(parts[parts.len() - 1] != ".."@);
        assert(parts.drop_last() == d);
        assert(walk(root, parts) == step(w, parts.last()));
        if parts.last() != "."@ {
            assert(step(w, parts.last()) == w.push(parts.last()));
            assert(w.push(parts.last()).take(root.len() as int) =~= w.take(root.len() as int));
        } else {
            assert(step(w, parts.last()) == w);
        }
    } else {
        assert(root.take(root.len() as int) =~= root);
    }
}

/// Whatever the input, a path that `resolve_path` accepts lies under the
/// root, and so does the place it really leads to where that is known.
pub proof fn law_accepted_path_under_root(
    root: Seq<Seq<char>>,
    relative: Seq<char>,
    existing: Option<Seq<Seq<char>>>,
    reached: Option<Seq<Seq<char>>>,
)
    ensures
        resolve_spec(root, relative, existing, reached) matches Ok(p) ==> under(p, root),
        resolve_spec(root, relative, existing, reached) is Ok && existing is None
            ==> (reached matches Some(r) ==> under(r, root)),
{
}

} // verus!
