//! Unix paths as text.
use crate::text::{find_last, slice_text, to_chars};
use vstd::prelude::*;

verus! {

/// Whether a path begins at the root.
pub open spec fn is_absolute(path: Seq<char>) -> bool {
    path.len() > 0 && path[0] == '/'
}

/// `rel` seen from the directory `base`: an absolute `rel` stands for itself, any other is put
/// behind `base`, with one separator between them where `base` has none at its end.
pub open spec fn joined_path(base: Seq<char>, rel: Seq<char>) -> Seq<char> {
    if is_absolute(rel) || base.len() == 0 {
        rel
    } else if base.last() == '/' {
        base + rel
    } else {
        base + "/"@ + rel
    }
}

/// `path` without the separators and `.` components at its end.
pub open spec fn without_tail(path: Seq<char>) -> Seq<char>
    decreases path.len(),
{
    if path.len() > 0 && (path.last() == '/' || (path.len() > 1 && path.last() == '.' && path[
    path.len() - 2] == '/')) {
        without_tail(path.drop_last())
    } else {
        path
    }
}

/// What follows the last separator.
pub open spec fn last_component(path: Seq<char>) -> Seq<char> {
    match path.index_of_last('/') {
        Some(i) => path.skip(i + 1),
        None => path,
    }
}

/// The final component of a path, or the whole path where it ends in the root, `.` or `..`.
pub open spec fn base_name(path: Seq<char>) -> Seq<char> {
    let name = last_component(without_tail(path));
    if name.len() == 0 || name == seq!['.'] || name == seq!['.', '.'] {
        path
    } else {
        name
    }
}

/// The directory that holds a path: what stands before the last separator, and the root for what
/// lies directly in it. The root has none, nor has a path without a separator.
pub open spec fn parent_dir(path: Seq<char>) -> Option<Seq<char>> {
    match path.index_of_last('/') {
        Some(i) => if i > 0 {
            Some(path.take(i))
        } else if path.len() > 1 {
            Some(path.take(1))
        } else {
            None
        },
        None => None,
    }
}

/// A directory and all that hold it, from the directory itself upwards.
pub open spec fn ancestors(path: Seq<char>) -> Seq<Seq<char>>
    decreases path.len(),
{
    match parent_dir(path) {
        Some(dir) => if dir.len() < path.len() {
            seq![path] + ancestors(dir)
        } else {
            seq![path]
        },
        None => seq![path],
    }
}

/// Every parent is shorter than the path.
pub proof fn lemma_parent_shorter(path: Seq<char>)
    ensures
        parent_dir(path) matches Some(dir) ==> dir.len() < path.len() && dir == path.take(
            dir.len() as int,
        ),
{
    path.index_of_last_ensures('/');
}

/// What leads from the directory `dir` down to `path`, which lies in it; empty for `dir` itself.
pub open spec fn below(dir: Seq<char>, path: Seq<char>) -> Seq<char> {
    if path.len() <= dir.len() {
        seq![]
    } else if dir.len() > 0 && dir.last() == '/' {
        path.skip(dir.len() as int)
    } else {
        path.skip(dir.len() as int + 1)
    }
}

/// Resolves `rel` against `base`; absolute paths are returned as they are.
pub fn resolve_relative(base: &str, rel: &str) -> (r: String)
    ensures
        r@ == joined_path(base@, rel@),
{
    let b = to_chars(base);
    let p = to_chars(rel);
    if b.len() == 0 || (p.len() > 0 && p[0] == '/') {
        return rel.to_owned();
    }
    let mut r = base.to_owned();
    if b[b.len() - 1] != '/' {
        r.append("/");
    }
    r.append(rel);
    r
}

/// The final component of a path, or the whole path where there is none.
pub fn basename(path: &str) -> (r: String)
    ensures
        r@ == base_name(path@),
{
    let mut chars = to_chars(path);
    while chars.len() > 0 && (chars[chars.len() - 1] == '/' || (chars.len() > 1 && chars[chars.len()
        - 1] == '.' && chars[chars.len() - 2] == '/'))
        invariant
            without_tail(chars@) == without_tail(path@),
        decreases chars@.len(),
    {
        let ghost before = chars@;
        chars.pop();
        assert(chars@ =~= before.drop_last());
    }
    let end = chars.len();
    let name = match find_last(&chars, '/') {
        Some(i) => slice_text(&chars, i + 1, end),
        None => slice_text(&chars, 0, end),
    };
    assert(name@ =~= last_component(chars@));
    let n = to_chars(name.as_str());
    if n.len() == 0 || (n.len() == 1 && n[0] == '.') || (n.len() == 2 && n[0] == '.' && n[1]
        == '.') {
        proof {
            assert(n@.len() == 1 && n@[0] == '.' ==> n@ =~= seq!['.']);
            assert(n@.len() == 2 && n@[0] == '.' && n@[1] == '.' ==> n@ =~= seq!['.', '.']);
        }
        path.to_owned()
    } else {
        name
    }
}

/// The directory that holds a path.
pub fn parent(path: &str) -> (r: Option<String>)
    ensures
        match r {
            Some(dir) => parent_dir(path@) == Some(dir@),
            None => parent_dir(path@) is None,
        },
{
    let chars = to_chars(path);
    match find_last(&chars, '/') {
        Some(i) => {
            if i > 0 {
                let dir = slice_text(&chars, 0, i);
                assert(dir@ =~= path@.take(i as int));
                Some(dir)
            } else if chars.len() > 1 {
                let dir = slice_text(&chars, 0, 1);
                assert(dir@ =~= path@.take(1));
                Some(dir)
            } else {
                None
            }
        },
        None => None,
    }
}

/// What leads from `dir` down to `path`.
pub fn path_below(dir: &str, path: &str) -> (r: String)
    ensures
        r@ == below(dir@, path@),
{
    let d = to_chars(dir);
    let p = to_chars(path);
    let end = p.len();
    if p.len() <= d.len() {
        String::new()
    } else if d.len() > 0 && d[d.len() - 1] == '/' {
        let r = slice_text(&p, d.len(), end);
        assert(r@ =~= path@.skip(dir@.len() as int));
        r
    } else {
        let r = slice_text(&p, d.len() + 1, end);
        assert(r@ =~= path@.skip(dir@.len() as int + 1));
        r
    }
}

// --- laws ---

/// Whether a path is absolute and written without needless separators.
pub open spec fn is_normal(path: Seq<char>) -> bool {
    &&& is_absolute(path)
    &&& path.len() > 1 ==> path.last() != '/'
    &&& forall|i: int| 0 <= i < path.len() - 1 ==> !(#[trigger] path[i] == '/' && path[i + 1] == '/')
}

/// Whether `path` lies in `dir`: it goes on where `dir` ends, with a separator between them.
pub open spec fn lies_in(dir: Seq<char>, path: Seq<char>) -> bool {
    &&& 0 < dir.len() < path.len()
    &&& path.take(dir.len() as int) == dir
    &&& (dir.len() == 1 && dir[0] == '/') || (dir.last() != '/' && path[dir.len() as int] == '/')
}

/// Of a normal path, every directory on the way up to the root is normal, and the path lies in all
/// of them but itself. The last one is the root.
pub proof fn law_ancestors(path: Seq<char>)
    requires
        is_normal(path),
    ensures
        ancestors(path).len() > 0,
        ancestors(path)[0] == path,
        ancestors(path).last() == seq!['/'],
        forall|i: int| 0 <= i < ancestors(path).len() ==> is_normal(#[trigger] ancestors(path)[i]),
        forall|i: int|
            0 < i < ancestors(path).len() ==> lies_in(#[trigger] ancestors(path)[i], path),
    decreases path.len(),
{
    path.index_of_last_ensures('/');
    lemma_parent_shorter(path);
    match parent_dir(path) {
        Some(dir) => {
            let last = path.index_of_last('/')->0;
            assert(dir =~= path.take(dir.len() as int));
            if last > 0 {
                assert(path[last - 1] != '/') by {
                    if path[last - 1] == '/' {
                        assert(path[last - 1] == '/' && path[last] == '/');
                    }
                }
                assert(dir.last() != '/');
            }
            assert(is_normal(dir)) by {
                assert forall|i: int| 0 <= i < dir.len() - 1 implies !(#[trigger] dir[i] == '/'
                    && dir[i + 1] == '/') by {
                    assert(path[i] == dir[i] && path[i + 1] == dir[i + 1]);
                }
            }
            assert(lies_in(dir, path));
            law_ancestors(dir);
            let up = ancestors(dir);
            assert(ancestors(path) =~= seq![path] + up);
            assert forall|i: int| 0 < i < ancestors(path).len() implies lies_in(
                #[trigger] ancestors(path)[i],
                path,
            ) by {
                let a = up[i - 1];
                assert(ancestors(path)[i] == a);
                if i > 1 {
                    assert(lies_in(a, dir));
                    assert(path.take(a.len() as int) =~= dir.take(a.len() as int));
                }
            }
            assert forall|i: int| 0 <= i < ancestors(path).len() implies is_normal(
                #[trigger] ancestors(path)[i],
            ) by {
                if i > 0 {
                    assert(ancestors(path)[i] == up[i - 1]);
                }
            }
        },
        None => {
            assert(path =~= seq!['/']);
            assert(ancestors(path) =~= seq![path]);
        },
    }
}

/// What leads from a directory down to a path in it, put behind the directory, gives the path
/// again.
pub proof fn law_way_down(dir: Seq<char>, path: Seq<char>)
    requires
        is_normal(path),
        lies_in(dir, path),
    ensures
        below(dir, path).len() > 0,
        !is_absolute(below(dir, path)),
        joined_path(dir, below(dir, path)) == path,
{
    reveal_strlit("/");
    let n = dir.len() as int;
    assert(path =~= dir + path.skip(n));
    if dir.last() == '/' {
        assert(path[0] == dir[0]);
        assert(path[0] == '/' ==> path[1] != '/');
    } else {
        assert(path.skip(n) =~= "/"@ + path.skip(n + 1));
        assert(path.last() != '/');
        assert(path[n] == '/' ==> path[n + 1] != '/');
        assert(path =~= dir + "/"@ + path.skip(n + 1));
    }
}

/// A relative path is put behind the directory, with one separator between them; an absolute one
/// stands for itself.
pub proof fn law_joined_path(base: Seq<char>, rel: Seq<char>)
    ensures
        rel.len() > 0 && rel[0] == '/' ==> joined_path(base, rel) == rel,
        base.len() > 0 && base.last() != '/' && (rel.len() == 0 || rel[0] != '/') ==> joined_path(
            base,
            rel,
        ) == base + seq!['/'] + rel,
        base.len() > 0 && base.last() == '/' && (rel.len() == 0 || rel[0] != '/') ==> joined_path(
            base,
            rel,
        ) == base + rel,
        base.len() == 0 ==> joined_path(base, rel) == rel,
{
    reveal_strlit("/");
    assert("/"@ =~= seq!['/']);
}

/// Whether a text can be the name of a file.
pub open spec fn is_name(name: Seq<char>) -> bool {
    &&& name.len() > 0
    &&& !name.contains('/')
    &&& name != seq!['.']
    &&& name != seq!['.', '.']
}

/// The final component of a path is what stands behind its last separator, also where separators
/// and `.` follow it.
pub proof fn law_base_name(dir: Seq<char>, name: Seq<char>)
    requires
        is_name(name),
    ensures
        base_name(name) == name,
        base_name(dir + seq!['/'] + name) == name,
        base_name(dir + seq!['/'] + name + seq!['/']) == name,
        base_name(dir + seq!['/'] + name + seq!['/', '.']) == name,
        base_name(seq!['/']) == seq!['/'],
{
    let path = dir + seq!['/'] + name;
    let n = path.len() as int;
    assert(name.contains(name.last()));
    assert(path.last() == name.last());
    if name.len() == 1 {
        assert(name =~= seq![name[0]]);
    } else {
        assert(name.contains(name[name.len() - 2]));
        assert(path[n - 2] == name[name.len() - 2]);
    }
    assert(without_tail(path) == path);
    assert(without_tail(name) == name);
    let one = path + seq!['/'];
    let two = path + seq!['/', '.'];
    assert(one.drop_last() =~= path);
    assert(two.drop_last() =~= one);
    assert(without_tail(one) == path);
    assert(two[two.len() - 2] == '/');
    assert(without_tail(two) == without_tail(one));
    path.index_of_last_ensures('/');
    name.index_of_last_ensures('/');
    assert(path[dir.len() as int] == '/');
    let last = path.index_of_last('/')->0;
    if last > dir.len() {
        assert(path[last] == name[last - dir.len() - 1]);
    }
    assert(path.skip(dir.len() as int + 1) =~= name);
    let root = seq!['/'];
    assert(root.drop_last() =~= seq![]);
    assert(without_tail(root.drop_last()) =~= seq![]);
    Seq::<char>::empty().index_of_last_ensures('/');
    assert(without_tail(root) == root.drop_last());
    assert(last_component(without_tail(root)).len() == 0);
}

/// A path is made of the directory that holds it and of its final component.
pub proof fn law_parent(path: Seq<char>)
    requires
        is_normal(path),
        path.len() > 1,
        is_name(last_component(path)),
    ensures
        parent_dir(path) matches Some(dir) && joined_path(dir, base_name(path)) == path && lies_in(
            dir,
            path,
        ),
{
    reveal_strlit("/");
    path.index_of_last_ensures('/');
    assert(path.contains(path[0]));
    let last = path.index_of_last('/')->0;
    let name = path.skip(last + 1);
    assert(path =~= path.take(last) + seq!['/'] + name);
    law_base_name(path.take(last), name);
    if last > 0 {
        assert(path[last - 1] != '/') by {
            assert(!(path[last - 1] == '/' && path[last - 1 + 1] == '/'));
        }
    } else {
        assert(path.take(1) =~= seq!['/']);
    }
    assert(name.contains(name[0]));
    assert(joined_path(parent_dir(path)->0, name) =~= path);
}

/// Every directory that a path lies in is among those on its way up, and nearer ones come before
/// farther ones.
pub proof fn law_all_ancestors(path: Seq<char>, dir: Seq<char>)
    requires
        is_normal(path),
    ensures
        lies_in(dir, path) ==> ancestors(path).contains(dir),
        forall|i: int, j: int|
            #![trigger ancestors(path)[i], ancestors(path)[j]]
            0 <= i < j < ancestors(path).len() ==> ancestors(path)[i].len() > ancestors(path)[j].len(),
    decreases path.len(),
{
    law_ancestors(path);
    path.index_of_last_ensures('/');
    assert(path.contains(path[0]));
    lemma_parent_shorter(path);
    match parent_dir(path) {
        Some(up) => {
            let last = path.index_of_last('/')->0;
            assert(ancestors(path) =~= seq![path] + ancestors(up));
            assert(ancestors(path)[1] == ancestors(up)[0]) by {
                assert(ancestors(up).len() > 0);
            }
            assert(is_normal(up)) by {
                assert(ancestors(up)[0] == up);
                assert(is_normal(ancestors(path)[1]));
            }
            law_all_ancestors(up, dir);
            law_ancestors(up);
            let all = ancestors(path);
            assert forall|i: int, j: int|
                #![trigger all[i], all[j]]
                0 <= i < j < all.len() implies all[i].len() > all[j].len() by {
                assert(all[j] == ancestors(up)[j - 1]);
                if i > 0 {
                    assert(all[i] == ancestors(up)[i - 1]);
                } else if j > 1 {
                    assert(ancestors(up)[0].len() > ancestors(up)[j - 1].len());
                }
            }
            if lies_in(dir, path) {
                if dir == up {
                    assert(all[1] == dir);
                } else {
                    let n = dir.len() as int;
                    if !(n == 1 && dir[0] == '/') {
                        assert(path[n] == '/');
                        assert(n <= last);
                        if n == last {
                            assert(up =~= path.take(n));
                        }
                        assert(n < last);
                        assert(up.take(n) =~= path.take(n));
                        assert(up[n] == path[n]);
                    } else {
                        assert(dir =~= seq!['/']);
                        if up.len() == 1 {
                            assert(up =~= seq!['/']);
                        }
                        assert(up.take(1) =~= path.take(1));
                    }
                    assert(lies_in(dir, up));
                    let k = ancestors(up).index_of(dir);
                    assert(all[k + 1] == dir);
                }
            }
        },
        None => {
            assert(path =~= seq!['/']);
        },
    }
}

} // verus!
