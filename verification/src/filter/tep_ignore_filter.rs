//! The path rules of a scan: how inputs are read against the workspace root,
//! which files are never scanned, and the order in which scanned paths come.
//! Walking directories and reading `.tepignore` files is done outside.
use vstd::prelude::*;

use crate::text::{
    chars_of, lemma_text_lt_irreflexive, lemma_text_lt_total, lemma_text_lt_transitive, str_eq,
    text_lt,
};
use crate::utils::path::{
    char_vecs, components, components_of, dot, dot_dot, file_name, is_absolute,
    normalize_to_workspace, parts, spec_file_name, spec_normalize_to_workspace,
};

verus! {

/// The name of the ignore file, which a scan never yields.
pub const TEPIGNORE_FILE_NAME: &'static str = ".tepignore";

/// The scan rules of one workspace.
pub struct TepIgnoreFilter {
    pub workspace_root: String,
}

impl TepIgnoreFilter {
    /// The rules of the workspace at `workspace_root`.
    pub fn for_workspace_root(workspace_root: &str) -> (f: TepIgnoreFilter)
        ensures
            f.workspace_root@ == workspace_root@,
    {
        TepIgnoreFilter { workspace_root: String::from_str(workspace_root) }
    }

    /// An input path as the scan reads it: an absolute path as it is, a
    /// relative one in its workspace form.
    pub fn resolve_input(&self, input: &str) -> (r: String)
        ensures
            r@ == if is_absolute(input@) {
                input@
            } else {
                spec_normalize_to_workspace(input@, self.workspace_root@)
            },
    {
        if is_absolute_str(input) {
            String::from_str(input)
        } else {
            self.normalize_path(input)
        }
    }

    /// A path in its workspace form.
    pub fn normalize_path(&self, path: &str) -> (r: String)
        ensures
            r@ == spec_normalize_to_workspace(path@, self.workspace_root@),
    {
        normalize_to_workspace(path, self.workspace_root.as_str())
    }

    /// Whether the path names the ignore file itself.
    pub fn is_special_internal_file(&self, path: &str) -> (r: bool)
        ensures
            r == (spec_file_name(path@) == Some(TEPIGNORE_FILE_NAME@)),
    {
        match file_name(path) {
            Some(n) => str_eq(n.as_str(), TEPIGNORE_FILE_NAME),
            None => false,
        }
    }
}

fn is_absolute_str(p: &str) -> (r: bool)
    ensures
        r == is_absolute(p@),
{
    let cs = crate::text::chars_of(p);
    cs.len() > 0 && cs[0] == '/'
}


/// One component of a path as a code: its kind (`.`, `..`, a name), the
/// name, and an end mark below every character a name holds.
pub open spec fn component_code(c: Seq<char>) -> Seq<char> {
    (if c == dot() {
        seq!['\u{2}']
    } else if c == dot_dot() {
        seq!['\u{3}']
    } else {
        seq!['\u{4}'] + c
    }) + seq!['\0']
}

pub open spec fn component_codes(cs: Seq<Seq<char>>) -> Seq<char>
    decreases cs.len(),
{
    if cs.len() == 0 {
        seq![]
    } else {
        component_codes(cs.drop_last()) + component_code(cs.last())
    }
}

/// The key by which paths are ordered and told apart: the root (first of
/// all kinds), then each component's code. Comparing keys as texts compares
/// paths component by component, as `Path` does: by kind (root, `.`, `..`,
/// name), then by name.
pub open spec fn path_key(p: Seq<char>) -> Seq<char> {
    (if is_absolute(p) {
        seq!['\u{1}', '\0']
    } else {
        seq![]
    }) + component_codes(components(parts(p), is_absolute(p)))
}

/// Whether path `a` comes before path `b`.
pub open spec fn path_before(a: Seq<char>, b: Seq<char>) -> bool {
    text_lt(path_key(a), path_key(b))
}

fn component_codes_exec(cs: &Vec<Vec<char>>) -> (r: Vec<char>)
    ensures
        r@ == component_codes(char_vecs(cs@)),
{
    let ghost v = char_vecs(cs@);
    let mut out: Vec<char> = Vec::new();
    let mut i: usize = 0;
    proof {
        assert(v.take(0) =~= Seq::<Seq<char>>::empty());
    }
    while i < cs.len()
        invariant
            i <= cs@.len(),
            v == char_vecs(cs@),
            out@ == component_codes(v.take(i as int)),
        decreases cs.len() - i,
    {
        let c = &cs[i];
        let ghost before = out@;
        let is_dot = c.len() == 1 && c[0] == '.';
        let is_dot_dot = c.len() == 2 && c[0] == '.' && c[1] == '.';
        proof {
            if is_dot {
                assert(c@ =~= dot());
            }
            if is_dot_dot {
                assert(c@ =~= dot_dot());
            }
            if c@ == dot() {
                assert(c@.len() == 1 && c@[0] == '.');
            }
            if c@ == dot_dot() {
                assert(c@.len() == 2 && c@[0] == '.' && c@[1] == '.');
            }
        }
        if is_dot {
            out.push('\u{2}');
        } else if is_dot_dot {
            out.push('\u{3}');
        } else {
            out.push('\u{4}');
            let mut j: usize = 0;
            let ghost mid = out@;
            while j < c.len()
                invariant
                    j <= c@.len(),
                    out@ == mid + c@.take(j as int),
                decreases c.len() - j,
            {
                out.push(c[j]);
                proof {
                    assert(c@.take(j + 1) =~= c@.take(j as int).push(c@[j as int]));
                    assert(out@ =~= mid + c@.take(j + 1));
                }
                j += 1;
            }
            proof {
                assert(c@.take(c@.len() as int) =~= c@);
            }
        }
        out.push('\0');
        proof {
            assert(v.take(i + 1).drop_last() =~= v.take(i as int));
            assert(v.take(i + 1).last() == c@);
            assert(out@ =~= before + component_code(c@));
        }
        i += 1;
    }
    proof {
        assert(v.take(cs@.len() as int) =~= v);
    }
    out
}

/// The key of a path.
pub fn path_key_exec(p: &str) -> (r: Vec<char>)
    ensures
        r@ == path_key(p@),
{
    let cs = chars_of(p);
    let root = cs.len() > 0 && cs[0] == '/';
    let comps = components_of(&cs);
    let codes = component_codes_exec(&comps);
    let mut out: Vec<char> = Vec::new();
    if root {
        out.push('\u{1}');
        out.push('\0');
    }
    let mut j: usize = 0;
    let ghost mid = out@;
    while j < codes.len()
        invariant
            j <= codes@.len(),
            out@ == mid + codes@.take(j as int),
        decreases codes.len() - j,
    {
        out.push(codes[j]);
        proof {
            assert(codes@.take(j + 1) =~= codes@.take(j as int).push(codes@[j as int]));
            assert(out@ =~= mid + codes@.take(j + 1));
        }
        j += 1;
    }
    proof {
        assert(codes@.take(codes@.len() as int) =~= codes@);
        assert(out@ =~= path_key(p@));
    }
    out
}

fn key_lt(a: &Vec<char>, b: &Vec<char>) -> (r: bool)
    ensures
        r == text_lt(a@, b@),
{
    let mut i: usize = 0;
    proof {
        assert(a@.skip(0) =~= a@);
        assert(b@.skip(0) =~= b@);
    }
    while i < a.len() && i < b.len() && a[i] == b[i]
        invariant
            i <= a@.len(),
            i <= b@.len(),
            text_lt(a@, b@) == text_lt(a@.skip(i as int), b@.skip(i as int)),
        decreases a.len() - i,
    {
        proof {
            assert(a@.skip(i as int).drop_first() =~= a@.skip(i + 1));
            assert(b@.skip(i as int).drop_first() =~= b@.skip(i + 1));
        }
        i += 1;
    }
    if i == b.len() {
        false
    } else if i == a.len() {
        true
    } else {
        a[i] < b[i]
    }
}

/// Whether some path of `r` has the key `key`.
pub open spec fn has_key(r: Seq<String>, key: Seq<char>) -> bool {
    exists|i: int| 0 <= i < r.len() && path_key(#[trigger] r[i]@) == key
}

/// `x` is a path of `paths`, the first one given with its key.
pub open spec fn first_with_key(paths: Seq<String>, x: Seq<char>) -> bool {
    exists|k: int|
        0 <= k < paths.len() && #[trigger] paths[k]@ == x && forall|m: int|
            0 <= m < k ==> path_key(paths[m]@) != path_key(x)
}

/// Scanned paths in order, each path once: ordered by `path_before`, and
/// of paths with the same key the first one given is kept.
pub fn sort_and_dedup_paths(paths: &Vec<String>) -> (r: Vec<String>)
    ensures
        forall|i: int, j: int| 0 <= i < j < r@.len() ==> path_before(r@[i]@, r@[j]@),
        forall|i: int| 0 <= i < r@.len() ==> first_with_key(paths@, #[trigger] r@[i]@),
        forall|k: int| 0 <= k < paths@.len() ==> has_key(r@, path_key(#[trigger] paths@[k]@)),
{
    let mut out: Vec<String> = Vec::new();
    let mut keys: Vec<Vec<char>> = Vec::new();
    let mut k: usize = 0;
    while k < paths.len()
        invariant
            k <= paths@.len(),
            keys@.len() == out@.len(),
            forall|i: int| 0 <= i < out@.len() ==> (#[trigger] keys@[i])@ == path_key(out@[i]@),
            forall|i: int, j: int| 0 <= i < j < out@.len() ==> text_lt(keys@[i]@, keys@[j]@),
            forall|i: int| 0 <= i < out@.len() ==> first_with_key(paths@, #[trigger] out@[i]@),
            forall|m: int| 0 <= m < k ==> has_key(out@, path_key(#[trigger] paths@[m]@)),
        decreases paths.len() - k,
    {
        let x = &paths[k];
        let kx = path_key_exec(x.as_str());
        let mut j: usize = 0;
        while j < out.len() && key_lt(&keys[j], &kx)
            invariant
                j <= out@.len(),
                keys@.len() == out@.len(),
                forall|i: int| 0 <= i < j ==> text_lt(keys@[i]@, kx@),
            decreases out.len() - j,
        {
            j += 1;
        }
        let same = j < out.len() && crate::text::chars_eq(keys[j].as_slice(), kx.as_slice());
        if same {
            proof {
                assert forall|m: int| 0 <= m < k + 1 implies has_key(out@, path_key(#[trigger] paths@[m]@)) by {
                    if m == k {
                        assert(path_key(out@[j as int]@) == path_key(paths@[m]@));
                    }
                }
            }
        } else {
            let ghost ko = keys@;
            let ghost oo = out@;
            proof {
                if j < out@.len() {
                    lemma_text_lt_total(keys@[j as int]@, kx@);
                    assert(text_lt(kx@, keys@[j as int]@));
                }
                assert forall|i: int| 0 <= i < oo.len() implies path_key(#[trigger] oo[i]@) != kx@ by {
                    assert(ko[i]@ == path_key(oo[i]@));
                    if i < j {
                        lemma_text_lt_irreflexive(kx@);
                    } else {
                        if i > j {
                            lemma_text_lt_transitive(kx@, ko[j as int]@, ko[i]@);
                        }
                        lemma_text_lt_irreflexive(kx@);
                    }
                }
                assert forall|m: int| 0 <= m < k implies path_key(paths@[m]@) != path_key(paths@[k as int]@) by {
                    assert(has_key(oo, path_key(paths@[m]@)));
                    let i0 = choose|i: int| 0 <= i < oo.len() && path_key(#[trigger] oo[i]@) == path_key(paths@[m]@);
                }
                assert(first_with_key(paths@, x@));
            }
            keys.insert(j, kx);
            out.insert(j, x.clone());
            proof {
                assert forall|a: int, b: int| 0 <= a < b < out@.len() implies text_lt(
                    keys@[a]@,
                    keys@[b]@,
                ) by {
                    if b < j {
                        assert(keys@[a] == ko[a] && keys@[b] == ko[b]);
                    } else if b == j {
                        assert(keys@[a] == ko[a]);
                    } else if a < j {
                        assert(keys@[a] == ko[a] && keys@[b] == ko[b - 1]);
                        assert(text_lt(ko[a]@, kx@));
                        assert(text_lt(kx@, ko[j as int]@));
                        if b - 1 > j {
                            lemma_text_lt_transitive(kx@, ko[j as int]@, ko[b - 1]@);
                        }
                        lemma_text_lt_transitive(ko[a]@, kx@, ko[b - 1]@);
                    } else if a == j {
                        assert(keys@[b] == ko[b - 1]);
                        if b - 1 > j {
                            lemma_text_lt_transitive(kx@, ko[j as int]@, ko[b - 1]@);
                        }
                    } else {
                        assert(keys@[a] == ko[a - 1] && keys@[b] == ko[b - 1]);
                    }
                }
                assert forall|i: int| 0 <= i < out@.len() implies (#[trigger] keys@[i])@ == path_key(
                    out@[i]@,
                ) by {
                    if i < j {
                        assert(keys@[i] == ko[i] && out@[i] == oo[i]);
                    } else if i > j {
                        assert(keys@[i] == ko[i - 1] && out@[i] == oo[i - 1]);
                    }
                }
                assert forall|i: int| 0 <= i < out@.len() implies first_with_key(paths@, #[trigger] out@[i]@) by {
                    if i < j {
                        assert(out@[i] == oo[i]);
                    } else if i > j {
                        assert(out@[i] == oo[i - 1]);
                    }
                }
                assert forall|m: int| 0 <= m < k + 1 implies has_key(out@, path_key(#[trigger] paths@[m]@)) by {
                    if m == k {
                        assert(path_key(out@[j as int]@) == path_key(paths@[m]@));
                    } else {
                        assert(has_key(oo, path_key(paths@[m]@)));
                        let i0 = choose|i: int|
                            0 <= i < oo.len() && path_key(#[trigger] oo[i]@) == path_key(paths@[m]@);
                        if i0 < j {
                            assert(out@[i0] == oo[i0]);
                        } else {
                            assert(out@[i0 + 1] == oo[i0]);
                        }
                    }
                }
            }
        }
        k += 1;
    }
    proof {
        assert forall|i: int, j: int| 0 <= i < j < out@.len() implies path_before(out@[i]@, out@[j]@) by {
            assert(keys@[i]@ == path_key(out@[i]@));
            assert(keys@[j]@ == path_key(out@[j]@));
        }
    }
    out
}

} // verus!
