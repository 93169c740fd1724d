//! Lexical path handling for `/`-separated paths, as `std::path` treats
//! them on Unix: normalization without touching the file system, joining,
//! and the workspace-relative form `./a/b` used as a file's identity.
use vstd::prelude::*;

use crate::text::{chars_eq, chars_of, copy_range, push_all, string_of};

verus! {

pub open spec fn is_absolute(p: Seq<char>) -> bool {
    p.len() > 0 && p[0] == '/'
}

pub open spec fn dot() -> Seq<char> {
    seq!['.']
}

pub open spec fn dot_dot() -> Seq<char> {
    seq!['.', '.']
}

/// The `/`-separated parts of `p` from index `i` on, the current part having
/// started at `start` (empty parts included).
pub open spec fn parts_from(p: Seq<char>, i: int, start: int) -> Seq<Seq<char>>
    decreases p.len() - i,
{
    if start < 0 || start > p.len() || i < start {
        seq![]
    } else if i >= p.len() {
        seq![p.subrange(start, p.len() as int)]
    } else if p[i] == '/' {
        seq![p.subrange(start, i)] + parts_from(p, i + 1, i + 1)
    } else {
        parts_from(p, i + 1, start)
    }
}

pub open spec fn parts(p: Seq<char>) -> Seq<Seq<char>> {
    parts_from(p, 0, 0)
}

/// The names left after applying the parts in order: empty parts and `.`
/// are skipped, `..` drops the last name (if any), anything else is pushed.
pub open spec fn norm_stack(ps: Seq<Seq<char>>) -> Seq<Seq<char>>
    decreases ps.len(),
{
    if ps.len() == 0 {
        seq![]
    } else {
        let st = norm_stack(ps.drop_last());
        let x = ps.last();
        if x.len() == 0 || x == dot() {
            st
        } else if x == dot_dot() {
            if st.len() > 0 {
                st.drop_last()
            } else {
                st
            }
        } else {
            st.push(x)
        }
    }
}

/// Names joined by `/`.
pub open spec fn join_names(st: Seq<Seq<char>>) -> Seq<char>
    decreases st.len(),
{
    if st.len() == 0 {
        seq![]
    } else if st.len() == 1 {
        st[0]
    } else {
        join_names(st.drop_last()) + seq!['/'] + st.last()
    }
}

pub open spec fn render(root: bool, st: Seq<Seq<char>>) -> Seq<char> {
    (if root {
        seq!['/']
    } else {
        seq![]
    }) + join_names(st)
}

/// `Path::components` folded: `.` and `..` resolved lexically.
pub open spec fn spec_normalize_lexically(p: Seq<char>) -> Seq<char> {
    render(is_absolute(p), norm_stack(parts(p)))
}

/// `Path::join`: an absolute `p` replaces the base; else a separator is put
/// between them unless the base is empty or already ends with one.
pub open spec fn path_join(base: Seq<char>, p: Seq<char>) -> Seq<char> {
    if is_absolute(p) {
        p
    } else if base.len() == 0 {
        p
    } else if base.last() == '/' {
        base + p
    } else {
        base + seq!['/'] + p
    }
}

/// The components of a workspace root after the root itself: whether there
/// are any, and their names when all are plain names (a leading `.` of a
/// relative path and any `..` are components that are not names).
pub open spec fn root_components(ps: Seq<Seq<char>>, root: bool) -> (bool, Option<Seq<Seq<char>>>)
    decreases ps.len(),
{
    if ps.len() == 0 {
        (false, Some(seq![]))
    } else {
        let (nonempty, names) = root_components(ps.drop_last(), root);
        let x = ps.last();
        if x.len() == 0 {
            (nonempty, names)
        } else if x == dot() {
            if ps.len() == 1 && !root {
                (true, None)
            } else {
                (nonempty, names)
            }
        } else if x == dot_dot() {
            (true, None)
        } else {
            (
                true,
                match names {
                    Some(n) => Some(n.push(x)),
                    None => None,
                },
            )
        }
    }
}

/// `.` for no names, else `./` and the names.
pub open spec fn relative_text(rem: Seq<Seq<char>>) -> Seq<char> {
    if rem.len() == 0 {
        seq!['.']
    } else {
        seq!['.', '/'] + join_names(rem)
    }
}

/// The normalized path made relative to the workspace root (`./a/b`, or
/// `.` for the root itself) when it lies under it, else the normalized path.
pub open spec fn spec_normalize_to_workspace(p: Seq<char>, ws: Seq<char>) -> Seq<char> {
    let full = if is_absolute(p) {
        p
    } else {
        path_join(ws, p)
    };
    let root = is_absolute(full);
    let st = norm_stack(parts(full));
    let ws_root = is_absolute(ws);
    let (nonempty, names) = root_components(parts(ws), ws_root);
    if !ws_root && !nonempty {
        if root {
            render(true, st)
        } else {
            relative_text(st)
        }
    } else {
        match names {
            Some(n) => if ws_root == root && n.len() <= st.len() && st.subrange(0, n.len() as int)
                == n {
                relative_text(st.subrange(n.len() as int, st.len() as int))
            } else {
                render(root, st)
            },
            None => render(root, st),
        }
    }
}

pub open spec fn char_vecs(v: Seq<Vec<char>>) -> Seq<Seq<char>> {
    Seq::new(v.len(), |i: int| v[i]@)
}

fn split_parts(p: &[char]) -> (r: Vec<Vec<char>>)
    ensures
        char_vecs(r@) == parts(p@),
{
    let mut out: Vec<Vec<char>> = Vec::new();
    let mut start: usize = 0;
    let mut i: usize = 0;
    proof {
        assert(char_vecs(out@) + parts(p@) =~= parts(p@));
    }
    while i < p.len()
        invariant
            start <= i <= p@.len(),
            char_vecs(out@) + parts_from(p@, i as int, start as int) == parts(p@),
        decreases p.len() - i,
    {
        if p[i] == '/' {
            let ghost before = char_vecs(out@);
            let part = copy_range(p, start, i);
            out.push(part);
            proof {
                assert(char_vecs(out@) =~= before.push(p@.subrange(start as int, i as int)));
                assert(before + (seq![p@.subrange(start as int, i as int)] + parts_from(
                    p@,
                    i + 1,
                    i + 1,
                )) =~= char_vecs(out@) + parts_from(p@, i + 1, i + 1));
            }
            start = i + 1;
        }
        i += 1;
    }
    let ghost before = char_vecs(out@);
    let last = copy_range(p, start, p.len());
    out.push(last);
    proof {
        assert(char_vecs(out@) =~= before + seq![p@.subrange(start as int, p@.len() as int)]);
    }
    out
}

fn is_dot(x: &[char]) -> (r: bool)
    ensures
        r == (x@ == dot()),
{
    let d: Vec<char> = vec!['.'];
    assert(d@ =~= dot());
    chars_eq(x, &d)
}

fn is_dot_dot(x: &[char]) -> (r: bool)
    ensures
        r == (x@ == dot_dot()),
{
    let d: Vec<char> = vec!['.', '.'];
    chars_eq(x, &d)
}

fn normalize_parts(ps: &Vec<Vec<char>>) -> (r: Vec<Vec<char>>)
    ensures
        char_vecs(r@) == norm_stack(char_vecs(ps@)),
{
    let ghost pv = char_vecs(ps@);
    let mut st: Vec<Vec<char>> = Vec::new();
    let mut i: usize = 0;
    proof {
        assert(pv.take(0) =~= Seq::<Seq<char>>::empty());
        assert(char_vecs(st@) =~= Seq::<Seq<char>>::empty());
    }
    while i < ps.len()
        invariant
            i <= ps@.len(),
            pv == char_vecs(ps@),
            char_vecs(st@) == norm_stack(pv.take(i as int)),
        decreases ps.len() - i,
    {
        let ghost before = char_vecs(st@);
        proof {
            assert(pv.take(i + 1).drop_last() =~= pv.take(i as int));
            assert(pv.take(i + 1).last() == ps@[i as int]@);
        }
        let x = &ps[i];
        if x.len() == 0 || is_dot(x) {
        } else if is_dot_dot(x) {
            if st.len() > 0 {
                st.pop();
                proof {
                    assert(char_vecs(st@) =~= before.drop_last());
                }
            }
        } else {
            st.push(copy_range(x, 0, x.len()));
            proof {
                assert(x@.subrange(0, x@.len() as int) =~= x@);
                assert(char_vecs(st@) =~= before.push(x@));
            }
        }
        i += 1;
    }
    proof {
        assert(pv.take(ps@.len() as int) =~= pv);
    }
    st
}

fn join_names_exec(out: &mut Vec<char>, st: &Vec<Vec<char>>)
    ensures
        final(out)@ == old(out)@ + join_names(char_vecs(st@)),
{
    let ghost sv = char_vecs(st@);
    let ghost start = out@;
    let mut i: usize = 0;
    proof {
        assert(sv.take(0) =~= Seq::<Seq<char>>::empty());
        assert(out@ =~= start + join_names(sv.take(0)));
    }
    while i < st.len()
        invariant
            i <= st@.len(),
            sv == char_vecs(st@),
            out@ == start + join_names(sv.take(i as int)),
        decreases st.len() - i,
    {
        proof {
            assert(sv.take(i + 1).drop_last() =~= sv.take(i as int));
            assert(sv.take(i + 1).last() == st@[i as int]@);
        }
        if i > 0 {
            out.push('/');
        }
        push_all(out, &st[i]);
        proof {
            if i == 0 {
                assert(sv.take(1)[0] == st@[0]@);
            }
            assert(out@ =~= start + join_names(sv.take(i + 1)));
        }
        i += 1;
    }
    proof {
        assert(sv.take(st@.len() as int) =~= sv);
    }
}

fn render_exec(root: bool, st: &Vec<Vec<char>>) -> (r: Vec<char>)
    ensures
        r@ == render(root, char_vecs(st@)),
{
    let mut out: Vec<char> = Vec::new();
    if root {
        out.push('/');
    }
    join_names_exec(&mut out, st);
    proof {
        assert(out@ =~= render(root, char_vecs(st@)));
    }
    out
}

fn is_absolute_exec(p: &[char]) -> (r: bool)
    ensures
        r == is_absolute(p@),
{
    p.len() > 0 && p[0] == '/'
}

fn normalize_chars(p: &[char]) -> (r: Vec<char>)
    ensures
        r@ == spec_normalize_lexically(p@),
{
    let ps = split_parts(p);
    let st = normalize_parts(&ps);
    render_exec(is_absolute_exec(p), &st)
}

/// Resolves `.` and `..` without touching the file system.
pub fn normalize_lexically(path: &str) -> (r: String)
    ensures
        r@ == spec_normalize_lexically(path@),
{
    let p = chars_of(path);
    string_of(&normalize_chars(&p))
}

fn join_chars(base: &[char], p: &[char]) -> (r: Vec<char>)
    ensures
        r@ == path_join(base@, p@),
{
    if is_absolute_exec(p) || base.len() == 0 {
        return copy_range(p, 0, p.len());
    }
    let mut out = copy_range(base, 0, base.len());
    if base[base.len() - 1] != '/' {
        out.push('/');
    }
    push_all(&mut out, p);
    proof {
        assert(base@.subrange(0, base@.len() as int) =~= base@);
    }
    out
}

/// `Path::join` on strings.
pub fn join_path(base: &str, path: &str) -> (r: String)
    ensures
        r@ == path_join(base@, path@),
{
    let b = chars_of(base);
    let p = chars_of(path);
    let r = join_chars(&b, &p);
    proof {
        assert(p@.subrange(0, p@.len() as int) =~= p@);
    }
    string_of(&r)
}

fn root_components_exec(ps: &Vec<Vec<char>>, root: bool) -> (r: (bool, Option<Vec<Vec<char>>>))
    ensures
        root_components(char_vecs(ps@), root).0 == r.0,
        match root_components(char_vecs(ps@), root).1 {
            Some(n) => r.1 matches Some(v) && char_vecs(v@) == n,
            None => r.1 is None,
        },
{
    let ghost pv = char_vecs(ps@);
    let mut nonempty = false;
    let mut names: Option<Vec<Vec<char>>> = Some(Vec::new());
    let mut i: usize = 0;
    proof {
        assert(pv.take(0) =~= Seq::<Seq<char>>::empty());
        assert(char_vecs(Seq::<Vec<char>>::empty()) =~= Seq::<Seq<char>>::empty());
    }
    while i < ps.len()
        invariant
            i <= ps@.len(),
            pv == char_vecs(ps@),
            root_components(pv.take(i as int), root).0 == nonempty,
            match root_components(pv.take(i as int), root).1 {
                Some(n) => names matches Some(v) && char_vecs(v@) == n,
                None => names is None,
            },
        decreases ps.len() - i,
    {
        proof {
            assert(pv.take(i + 1).drop_last() =~= pv.take(i as int));
            assert(pv.take(i + 1).last() == ps@[i as int]@);
        }
        let x = &ps[i];
        if x.len() == 0 {
        } else if is_dot(x) {
            if i == 0 && !root {
                nonempty = true;
                names = None;
            }
        } else if is_dot_dot(x) {
            nonempty = true;
            names = None;
        } else {
            nonempty = true;
            names = match names {
                Some(mut v) => {
                    let ghost before = char_vecs(v@);
                    v.push(copy_range(x, 0, x.len()));
                    proof {
                        assert(x@.subrange(0, x@.len() as int) =~= x@);
                        assert(char_vecs(v@) =~= before.push(x@));
                    }
                    Some(v)
                },
                None => None,
            };
        }
        i += 1;
    }
    proof {
        assert(pv.take(ps@.len() as int) =~= pv);
    }
    (nonempty, names)
}

fn relative_exec(st: &Vec<Vec<char>>, from: usize) -> (r: Vec<char>)
    requires
        from <= st@.len(),
    ensures
        r@ == relative_text(char_vecs(st@).subrange(from as int, st@.len() as int)),
{
    let mut rem: Vec<Vec<char>> = Vec::new();
    let mut i: usize = from;
    while i < st.len()
        invariant
            from <= i <= st@.len(),
            char_vecs(rem@) == char_vecs(st@).subrange(from as int, i as int),
        decreases st.len() - i,
    {
        let ghost before = char_vecs(rem@);
        rem.push(copy_range(&st[i], 0, st[i].len()));
        proof {
            assert(st@[i as int]@.subrange(0, st@[i as int]@.len() as int) =~= st@[i as int]@);
            assert(char_vecs(rem@) =~= before.push(st@[i as int]@));
            assert(char_vecs(st@).subrange(from as int, i + 1) =~= char_vecs(st@).subrange(
                from as int,
                i as int,
            ).push(st@[i as int]@));
        }
        i += 1;
    }
    let mut out: Vec<char> = Vec::new();
    out.push('.');
    if rem.len() > 0 {
        out.push('/');
        join_names_exec(&mut out, &rem);
    }
    proof {
        assert(out@ =~= relative_text(char_vecs(st@).subrange(from as int, st@.len() as int)));
    }
    out
}

fn names_prefix(st: &Vec<Vec<char>>, names: &Vec<Vec<char>>) -> (r: bool)
    ensures
        r == (names@.len() <= st@.len() && char_vecs(st@).subrange(0, names@.len() as int)
            == char_vecs(names@)),
{
    if names.len() > st.len() {
        return false;
    }
    let mut i: usize = 0;
    while i < names.len()
        invariant
            i <= names@.len() <= st@.len(),
            forall|j: int| 0 <= j < i ==> st@[j]@ == names@[j]@,
        decreases names.len() - i,
    {
        if !chars_eq(&st[i], &names[i]) {
            proof {
                assert(char_vecs(st@).subrange(0, names@.len() as int)[i as int] == st@[i as int]@);
            }
            return false;
        }
        i += 1;
    }
    proof {
        assert(char_vecs(st@).subrange(0, names@.len() as int) =~= char_vecs(names@));
    }
    true
}

/// A path in its workspace-relative form (`./a/b`, `.` for the root) when it
/// lies under `workspace_root`, else normalized.
pub fn normalize_to_workspace(path: &str, workspace_root: &str) -> (r: String)
    ensures
        r@ == spec_normalize_to_workspace(path@, workspace_root@),
{
    let p = chars_of(path);
    let ws = chars_of(workspace_root);
    let full = if is_absolute_exec(&p) {
        copy_range(&p, 0, p.len())
    } else {
        join_chars(&ws, &p)
    };
    proof {
        assert(p@.subrange(0, p@.len() as int) =~= p@);
    }
    let root = is_absolute_exec(&full);
    let ps = split_parts(&full);
    let st = normalize_parts(&ps);
    let ws_root = is_absolute_exec(&ws);
    let wps = split_parts(&ws);
    let (nonempty, names) = root_components_exec(&wps, ws_root);
    let out = if !ws_root && !nonempty {
        if root {
            render_exec(true, &st)
        } else {
            proof {
                assert(char_vecs(st@).subrange(0, st@.len() as int) =~= char_vecs(st@));
            }
            relative_exec(&st, 0)
        }
    } else {
        match names {
            Some(n) => {
                if ws_root == root && names_prefix(&st, &n) {
                    relative_exec(&st, n.len())
                } else {
                    render_exec(root, &st)
                }
            },
            None => render_exec(root, &st),
        }
    };
    string_of(&out)
}

/// An absolute path as is; a relative one joined to the workspace root.
pub fn resolve_from_workspace(path: &str, workspace_root: &str) -> (r: String)
    ensures
        r@ == if is_absolute(path@) {
            path@
        } else {
            path_join(workspace_root@, path@)
        },
{
    join_path(workspace_root, path)
}

/// The text of a path.
pub fn display_path(path: &str) -> (r: String)
    ensures
        r@ == path@,
{
    String::from_str(path)
}

/// The components of a path after its root: empty parts and every `.` but
/// a leading one of a relative path are dropped.
pub open spec fn components(ps: Seq<Seq<char>>, root: bool) -> Seq<Seq<char>>
    decreases ps.len(),
{
    if ps.len() == 0 {
        seq![]
    } else {
        let c = components(ps.drop_last(), root);
        let x = ps.last();
        if x.len() == 0 || (x == dot() && !(ps.len() == 1 && !root)) {
            c
        } else {
            c.push(x)
        }
    }
}

/// `Path::parent`: the path without its last component, `None` when there
/// is none.
pub open spec fn spec_parent(p: Seq<char>) -> Option<Seq<char>> {
    let c = components(parts(p), is_absolute(p));
    if c.len() == 0 {
        None
    } else {
        Some(render(is_absolute(p), c.drop_last()))
    }
}

/// `Path::file_name`: the last component when it is a name.
pub open spec fn spec_file_name(p: Seq<char>) -> Option<Seq<char>> {
    let c = components(parts(p), is_absolute(p));
    if c.len() == 0 || c.last() == dot() || c.last() == dot_dot() {
        None
    } else {
        Some(c.last())
    }
}

fn components_exec(ps: &Vec<Vec<char>>, root: bool) -> (r: Vec<Vec<char>>)
    ensures
        char_vecs(r@) == components(char_vecs(ps@), root),
{
    let ghost pv = char_vecs(ps@);
    let mut c: Vec<Vec<char>> = Vec::new();
    let mut i: usize = 0;
    proof {
        assert(pv.take(0) =~= Seq::<Seq<char>>::empty());
        assert(char_vecs(c@) =~= Seq::<Seq<char>>::empty());
    }
    while i < ps.len()
        invariant
            i <= ps@.len(),
            pv == char_vecs(ps@),
            char_vecs(c@) == components(pv.take(i as int), root),
        decreases ps.len() - i,
    {
        let ghost before = char_vecs(c@);
        proof {
            assert(pv.take(i + 1).drop_last() =~= pv.take(i as int));
            assert(pv.take(i + 1).last() == ps@[i as int]@);
        }
        let x = &ps[i];
        if x.len() == 0 || (is_dot(x) && !(i == 0 && !root)) {
        } else {
            c.push(copy_range(x, 0, x.len()));
            proof {
                assert(x@.subrange(0, x@.len() as int) =~= x@);
                assert(char_vecs(c@) =~= before.push(x@));
            }
        }
        i += 1;
    }
    proof {
        assert(pv.take(ps@.len() as int) =~= pv);
    }
    c
}

/// The parent of a path, as `Path::parent` gives it.
pub fn parent_path(path: &str) -> (r: Option<String>)
    ensures
        match spec_parent(path@) {
            Some(q) => r matches Some(s) && s@ == q,
            None => r is None,
        },
{
    let p = chars_of(path);
    let ps = split_parts(&p);
    let root = is_absolute_exec(&p);
    let mut c = components_exec(&ps, root);
    if c.len() == 0 {
        return None;
    }
    let ghost cv = char_vecs(c@);
    c.pop();
    proof {
        assert(char_vecs(c@) =~= cv.drop_last());
    }
    Some(string_of(&render_exec(root, &c)))
}

/// The last component of a path when it is a name.
pub fn file_name(path: &str) -> (r: Option<String>)
    ensures
        match spec_file_name(path@) {
            Some(q) => r matches Some(s) && s@ == q,
            None => r is None,
        },
{
    let p = chars_of(path);
    let ps = split_parts(&p);
    let root = is_absolute_exec(&p);
    let c = components_exec(&ps, root);
    if c.len() == 0 {
        return None;
    }
    let last = &c[c.len() - 1];
    if is_dot(last) || is_dot_dot(last) {
        return None;
    }
    Some(string_of(last))
}


/// The components of `p`, each as its characters.
pub fn components_of(p: &Vec<char>) -> (r: Vec<Vec<char>>)
    ensures
        char_vecs(r@) == components(parts(p@), is_absolute(p@)),
{
    let ps = split_parts(p.as_slice());
    components_exec(&ps, is_absolute_exec(p.as_slice()))
}

/// The path made of the first `k` components, under the root when `root`.
pub fn render_prefix(root: bool, c: &Vec<Vec<char>>, k: usize) -> (r: String)
    requires
        k <= c@.len(),
    ensures
        r@ == render(root, char_vecs(c@).take(k as int)),
{
    let mut pre: Vec<Vec<char>> = Vec::new();
    let mut i: usize = 0;
    while i < k
        invariant
            i <= k,
            k <= c@.len(),
            char_vecs(pre@) == char_vecs(c@).take(i as int),
        decreases k - i,
    {
        let ghost before = char_vecs(pre@);
        let item = copy_range(&c[i], 0, c[i].len());
        proof {
            assert(c@[i as int]@.subrange(0, c@[i as int]@.len() as int) =~= c@[i as int]@);
        }
        pre.push(item);
        proof {
            assert(char_vecs(pre@) =~= before.push(c@[i as int]@));
            assert(char_vecs(c@).take(i + 1) =~= char_vecs(c@).take(i as int).push(c@[i as int]@));
        }
        i += 1;
    }
    string_of(&render_exec(root, &pre))
}

} // verus!
