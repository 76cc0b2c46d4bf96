//! Note paths: where a note stands relative to the watched root, which group
//! it belongs to, and whether it is a note at all.

use vstd::prelude::*;

use crate::text::{chars_of, find_char, opt_view, range_equals, substring};

verus! {

/// The path of `path` relative to `root`: what follows `root` and the `/`
/// after it. `None` when `path` does not lie under `root`.
pub open spec fn rel_path(root: Seq<char>, path: Seq<char>) -> Option<Seq<char>> {
    if root.len() <= path.len() && path.subrange(0, root.len() as int) == root {
        if root.len() > 0 && root.last() == '/' {
            Some(path.subrange(root.len() as int, path.len() as int))
        } else if root.len() < path.len() && path[root.len() as int] == '/' {
            Some(path.subrange(root.len() as int + 1, path.len() as int))
        } else {
            None
        }
    } else {
        None
    }
}

/// The group of notes that lie directly under the root.
pub open spec fn root_group() -> Seq<char> {
    "Root"@
}

/// The group of a note: the first component of its path relative to the
/// root, or the root group when the note lies directly under the root.
pub open spec fn grouping(root: Seq<char>, path: Seq<char>) -> Option<Seq<char>> {
    match rel_path(root, path) {
        None => None,
        Some(rel) => {
            let j = find_char(rel, 0, '/');
            if j >= rel.len() {
                Some(root_group())
            } else {
                Some(rel.take(j))
            }
        },
    }
}

/// The last component of a path: what follows its last `/`.
pub open spec fn file_name(p: Seq<char>) -> Seq<char>
    decreases p.len(),
{
    if p.len() == 0 {
        p
    } else if p.last() == '/' {
        Seq::empty()
    } else {
        file_name(p.drop_last()).push(p.last())
    }
}

/// A note is a file whose name has the extension `md`: it ends in `.md`
/// after at least one more character.
pub open spec fn is_note_path(p: Seq<char>) -> bool {
    let n = file_name(p);
    n.len() >= 4 && n.subrange(n.len() - 3, n.len() as int) == seq!['.', 'm', 'd']
}

/// The path of `path` relative to `root`, if it lies under `root`.
pub fn relative_path(root: &str, path: &str) -> (r: Option<String>)
    ensures
        opt_view(r) == rel_path(root@, path@),
{
    let rc = chars_of(root);
    let pc = chars_of(path);
    let rl = rc.len();
    if rl > pc.len() {
        return None;
    }
    if !range_equals(&pc, 0, rl, &rc) {
        return None;
    }
    if rl > 0 && rc[rl - 1] == '/' {
        return Some(substring(&pc, rl, pc.len()));
    }
    if rl < pc.len() && pc[rl] == '/' {
        return Some(substring(&pc, rl + 1, pc.len()));
    }
    None
}

/// The group that a note at `path` belongs to, if it lies under `root`.
pub fn get_top_parent(root: &str, path: &str) -> (r: Option<String>)
    ensures
        opt_view(r) == grouping(root@, path@),
{
    match relative_path(root, path) {
        None => None,
        Some(rel) => {
            let c = chars_of(rel.as_str());
            let mut j: usize = 0;
            while j < c.len() && c[j] != '/'
                invariant
                    j <= c@.len(),
                    find_char(c@, j as int, '/') == find_char(c@, 0, '/'),
                decreases c@.len() - j,
            {
                j = j + 1;
            }
            if j == c.len() {
                Some("Root".to_owned())
            } else {
                Some(substring(&c, 0, j))
            }
        },
    }
}

/// The last component of `path`.
pub fn file_name_of(path: &str) -> (r: String)
    ensures
        r@ == file_name(path@),
{
    let p = chars_of(path);
    let mut j: usize = p.len();
    assert(p@.take(j as int) =~= p@);
    assert(file_name(p@) + p@.subrange(j as int, p@.len() as int) =~= file_name(p@));
    while j > 0 && p[j - 1] != '/'
        invariant
            j <= p@.len(),
            file_name(p@) == file_name(p@.take(j as int)) + p@.subrange(j as int, p@.len() as int),
        decreases j,
    {
        assert(p@.take(j as int).drop_last() =~= p@.take(j - 1));
        assert(file_name(p@.take(j - 1)) + p@.subrange(j - 1, p@.len() as int) =~= file_name(
            p@.take(j as int),
        ) + p@.subrange(j as int, p@.len() as int));
        j = j - 1;
    }
    if j == 0 {
        assert(p@.take(0).len() == 0);
    }
    assert(file_name(p@.take(j as int)) =~= Seq::<char>::empty());
    assert(p@.subrange(j as int, p@.len() as int) =~= file_name(p@));
    substring(&p, j, p.len())
}

/// Whether `path` names a note.
pub fn is_note(path: &str) -> (r: bool)
    ensures
        r == is_note_path(path@),
{
    let name = file_name_of(path);
    let n = chars_of(name.as_str());
    let len = n.len();
    if len < 4 {
        return false;
    }
    let ext = vec!['.', 'm', 'd'];
    range_equals(&n, len - 3, len, &ext)
}

} // verus!
