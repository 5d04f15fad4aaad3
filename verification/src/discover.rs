//! The repository-tree discoverer.
//!
//! The filesystem below a repository root is modelled as a tree of
//! directories, each knowing its name, whether it is itself a repository
//! root, and its subdirectories. Discovery walks that tree: hidden
//! directories are skipped, paths already covered by a registered
//! sub-repository are skipped, a repository root is recorded and not entered
//! (each repository owns the discovery of its own children), and any other
//! directory is entered.

use vstd::prelude::*;
use vstd::string::StringExecFns;

verus! {

/// One directory below a repository root: its name (a single path segment),
/// whether it is itself a repository root, and its subdirectories in
/// directory-listing order.
pub struct DirTree {
    pub name: String,
    pub is_repo: bool,
    pub entries: Vec<DirTree>,
}

/// A directory whose name starts with `.` is skipped entirely.
pub open spec fn hidden_name(name: Seq<char>) -> bool {
    name.len() > 0 && name[0] == '.'
}

/// The path of a child named `name` below `prefix`, with `/` as separator;
/// a child of the root (empty prefix) is just its name.
pub open spec fn child_rel_path(prefix: Seq<char>, name: Seq<char>) -> Seq<char> {
    if prefix.len() == 0 {
        name
    } else {
        prefix + seq!['/'] + name
    }
}

/// The paths that scanning one directory entry contributes, relative to the
/// scanned root: nothing for a hidden or already-known directory, the
/// directory itself for a repository root (which is not entered), and the
/// results of scanning its entries otherwise.
pub open spec fn spec_scan_entry(t: DirTree, prefix: Seq<char>, known: Seq<Seq<char>>) -> Seq<
    Seq<char>,
>
    decreases t, 1nat, 0nat,
{
    if hidden_name(t.name@) {
        Seq::<Seq<char>>::empty()
    } else {
        let rel = child_rel_path(prefix, t.name@);
        if known.contains(rel) {
            Seq::<Seq<char>>::empty()
        } else if t.is_repo {
            seq![rel]
        } else {
            spec_scan_entries(t, 0, rel, known)
        }
    }
}

/// The paths contributed by the entries of `t` from index `i` on, scanned in
/// order below the path `prefix`.
pub open spec fn spec_scan_entries(
    t: DirTree,
    i: int,
    prefix: Seq<char>,
    known: Seq<Seq<char>>,
) -> Seq<Seq<char>>
    decreases t, 0nat, t.entries.len() - i,
{
    if 0 <= i < t.entries.len() {
        spec_scan_entry(t.entries[i], prefix, known) + spec_scan_entries(t, i + 1, prefix, known)
    } else {
        Seq::<Seq<char>>::empty()
    }
}

/// All nested repository paths discovered below `root`, relative to it.
/// The root directory itself is never a candidate.
pub open spec fn spec_discovered_paths(root: DirTree, known: Seq<Seq<char>>) -> Seq<Seq<char>> {
    spec_scan_entries(root, 0, Seq::<char>::empty(), known)
}

/// Whether the list of known paths holds `path`.
fn known_contains(known: &Vec<String>, path: &String) -> (r: bool)
    ensures
        r == known.deep_view().contains(path@),
{
    let n = known.len();
    let mut j: usize = 0;
    while j < n
        invariant
            j <= n,
            n == known@.len(),
            forall|k: int| 0 <= k < j ==> (#[trigger] known.deep_view()[k]) != path@,
        decreases n - j,
    {
        if known[j] == *path {
            assert(known.deep_view()[j as int] == path@);
            return true;
        }
        j = j + 1;
    }
    false
}

/// Whether a directory name starts with `.`.
fn is_hidden(name: &String) -> (r: bool)
    ensures
        r == hidden_name(name@),
{
    let n = name.as_str().unicode_len();
    if n == 0 {
        false
    } else {
        name.as_str().get_char(0) == '.'
    }
}

/// Join a child name onto a path prefix.
pub fn join_path(prefix: &String, name: &String) -> (r: String)
    ensures
        r@ == child_rel_path(prefix@, name@),
{
    if prefix.as_str().unicode_len() == 0 {
        name.clone()
    } else {
        let mut s = prefix.clone();
        s.append("/");
        s.append(name.as_str());
        proof {
            reveal_strlit("/");
            assert("/"@ =~= seq!['/']);
            assert(s@ =~= child_rel_path(prefix@, name@));
        }
        s
    }
}

/// Scan the entries of `t` in order, appending every discovered repository
/// path to `out`.
fn scan_entries(t: &DirTree, prefix: &String, known: &Vec<String>, out: &mut Vec<String>)
    ensures
        final(out).deep_view() == old(out).deep_view() + spec_scan_entries(
            *t,
            0,
            prefix@,
            known.deep_view(),
        ),
    decreases *t,
{
    let ghost base = out.deep_view();
    let ghost kv = known.deep_view();
    let n = t.entries.len();
    let mut i: usize = 0;
    assert(base + spec_scan_entries(*t, 0, prefix@, kv) =~= out.deep_view() + spec_scan_entries(
        *t,
        0,
        prefix@,
        kv,
    ));
    while i < n
        invariant
            i <= n,
            n == t.entries@.len(),
            kv == known.deep_view(),
            out.deep_view() + spec_scan_entries(*t, i as int, prefix@, kv) == base
                + spec_scan_entries(*t, 0, prefix@, kv),
        decreases n - i,
    {
        let ghost step_base = out.deep_view();
        let child = &t.entries[i];
        if !is_hidden(&child.name) {
            let rel = join_path(prefix, &child.name);
            if known_contains(known, &rel) {
                // covered by a registered sub-repository: skip
            } else if child.is_repo {
                out.push(rel);
            } else {
                scan_entries(child, &rel, known, out);
            }
        }
        proof {
            assert(out.deep_view() =~= step_base + spec_scan_entry(t.entries@[i as int], prefix@, kv));
            assert(step_base + (spec_scan_entry(t.entries@[i as int], prefix@, kv)
                + spec_scan_entries(*t, i as int + 1, prefix@, kv)) =~= (step_base
                + spec_scan_entry(t.entries@[i as int], prefix@, kv)) + spec_scan_entries(
                *t,
                i as int + 1,
                prefix@,
                kv,
            ));
        }
        i = i + 1;
    }
}

/// The repository paths discovered below `root` that are not hidden, not
/// already known, and not nested inside another discovered repository, in
/// scan order, relative to `root`.
pub fn discover_nested_paths(root: &DirTree, known_paths: &Vec<String>) -> (r: Vec<String>)
    ensures
        r.deep_view() == spec_discovered_paths(*root, known_paths.deep_view()),
{
    let mut out: Vec<String> = Vec::new();
    let prefix = String::new();
    assert(out.deep_view() =~= Seq::<Seq<char>>::empty());
    scan_entries(root, &prefix, known_paths, &mut out);
    assert(out.deep_view() =~= spec_discovered_paths(*root, known_paths.deep_view()));
    out
}

/// The height of the directory tree: one more than the tallest entry.
pub open spec fn spec_tree_height(t: DirTree) -> nat
    decreases t, 1nat, 0nat,
{
    1 + spec_entries_height(t, 0)
}

/// The tallest height among the entries of `t` from index `i` on.
pub open spec fn spec_entries_height(t: DirTree, i: int) -> nat
    decreases t, 0nat, t.entries.len() - i,
{
    if 0 <= i < t.entries.len() {
        let h = spec_tree_height(t.entries[i]);
        let rest = spec_entries_height(t, i + 1);
        if h > rest {
            h
        } else {
            rest
        }
    } else {
        0
    }
}

/// Every entry is lower than the tree that holds it.
proof fn lemma_entry_height(t: DirTree, j: int, i: int)
    requires
        0 <= j <= i < t.entries.len(),
    ensures
        spec_tree_height(t.entries[i]) <= spec_entries_height(t, j),
    decreases i - j,
{
    if j < i {
        lemma_entry_height(t, j + 1, i);
    }
}

/// The first node, in depth-first order over the entries of `t` from index
/// `i` on, whose path below `prefix` is `target`.
pub open spec fn spec_subtree_at(
    t: DirTree,
    i: int,
    prefix: Seq<char>,
    target: Seq<char>,
) -> Option<DirTree>
    decreases t, 0nat, t.entries.len() - i,
{
    if 0 <= i < t.entries.len() {
        match spec_subtree_in_entry(t.entries[i], prefix, target) {
            Some(s) => Some(s),
            None => spec_subtree_at(t, i + 1, prefix, target),
        }
    } else {
        None
    }
}

/// The entry itself when its path is `target`, else the first match among
/// its own entries.
pub open spec fn spec_subtree_in_entry(c: DirTree, prefix: Seq<char>, target: Seq<char>) -> Option<
    DirTree,
>
    decreases c, 1nat, 0nat,
{
    let rel = child_rel_path(prefix, c.name@);
    if rel == target {
        Some(c)
    } else {
        spec_subtree_at(c, 0, rel, target)
    }
}

/// The subtree whose path relative to the scanned root is `target`, searched
/// depth-first below `prefix`; any found subtree is strictly lower than the
/// tree searched.
pub fn subtree_at<'a>(t: &'a DirTree, prefix: &String, target: &String) -> (r: Option<&'a DirTree>)
    ensures
        match r {
            Some(s) => spec_subtree_at(*t, 0, prefix@, target@) == Some(*s)
                && spec_tree_height(*s) < spec_tree_height(*t),
            None => spec_subtree_at(*t, 0, prefix@, target@) is None,
        },
    decreases *t,
{
    let n = t.entries.len();
    let mut i: usize = 0;
    while i < n
        invariant
            i <= n,
            n == t.entries@.len(),
            spec_subtree_at(*t, 0, prefix@, target@) == spec_subtree_at(
                *t,
                i as int,
                prefix@,
                target@,
            ),
        decreases n - i,
    {
        let child = &t.entries[i];
        let rel = join_path(prefix, &child.name);
        if rel == *target {
            proof {
                lemma_entry_height(*t, 0, i as int);
                assert(spec_subtree_in_entry(t.entries@[i as int], prefix@, target@) == Some(
                    t.entries@[i as int],
                ));
            }
            return Some(child);
        }
        match subtree_at(child, &rel, target) {
            Some(s) => {
                proof {
                    lemma_entry_height(*t, 0, i as int);
                    assert(spec_subtree_in_entry(t.entries@[i as int], prefix@, target@) == Some(
                        *s,
                    ));
                }
                return Some(s);
            },
            None => {
                proof {
                    assert(spec_subtree_in_entry(t.entries@[i as int], prefix@, target@) is None);
                }
            },
        }
        i = i + 1;
    }
    None
}

/// A directory name as the filesystem hands it out: nonempty and free of the
/// path separator.
pub open spec fn valid_dir_name(name: Seq<char>) -> bool {
    name.len() > 0 && forall|i: int| 0 <= i < name.len() ==> name[i] != '/'
}

/// The directory tree is shaped as a filesystem shapes it: within each
/// directory the names are valid and pairwise distinct, recursively.
pub open spec fn tree_wf(t: DirTree) -> bool
    decreases t,
{
    &&& forall|i: int|
        0 <= i < t.entries.len() ==> valid_dir_name((#[trigger] t.entries[i]).name@)
    &&& forall|i: int, j: int|
        0 <= i < j < t.entries.len() ==> (#[trigger] t.entries[i]).name@ != (
        #[trigger] t.entries[j]).name@
    &&& forall|i: int| 0 <= i < t.entries.len() ==> tree_wf(#[trigger] t.entries[i])
}

/// `q` is a proper path prefix of `p`: `p` lies strictly inside the
/// directory at `q`.
pub open spec fn path_strictly_under(p: Seq<char>, q: Seq<char>) -> bool {
    &&& p.len() > q.len()
    &&& p.take(q.len() as int) == q
    &&& p[q.len() as int] == '/'
}

/// `p` is the path `q` itself or lies strictly inside it.
pub open spec fn starts_with_path(p: Seq<char>, q: Seq<char>) -> bool {
    p == q || path_strictly_under(p, q)
}

proof fn lemma_under_transitive(p: Seq<char>, m: Seq<char>, q: Seq<char>)
    requires
        path_strictly_under(p, m),
        path_strictly_under(m, q),
    ensures
        path_strictly_under(p, q),
{
    assert(p.take(m.len() as int).take(q.len() as int) =~= p.take(q.len() as int));
    assert(p[q.len() as int] == p.take(m.len() as int)[q.len() as int]);
}

/// A child's path lies strictly inside its nonempty prefix.
proof fn lemma_child_rel_under(prefix: Seq<char>, name: Seq<char>)
    requires
        prefix.len() > 0,
        valid_dir_name(name),
    ensures
        path_strictly_under(child_rel_path(prefix, name), prefix),
{
    let rel = child_rel_path(prefix, name);
    assert(rel.take(prefix.len() as int) =~= prefix);
    assert(rel[prefix.len() as int] == '/');
}

/// Paths below children with different names never nest: whatever starts
/// with one child's path does not lie strictly inside a differently-named
/// sibling's path.
proof fn lemma_distinct_children_not_nested(
    prefix: Seq<char>,
    a: Seq<char>,
    b: Seq<char>,
    p: Seq<char>,
)
    requires
        valid_dir_name(a),
        valid_dir_name(b),
        a != b,
        starts_with_path(p, child_rel_path(prefix, a)),
    ensures
        !path_strictly_under(p, child_rel_path(prefix, b)),
{
    let base: int = if prefix.len() == 0 {
        0
    } else {
        prefix.len() as int + 1
    };
    let ra = child_rel_path(prefix, a);
    let rb = child_rel_path(prefix, b);
    assert(ra.len() == base + a.len());
    assert(rb.len() == base + b.len());
    assert(forall|k: int| 0 <= k < a.len() ==> ra[base + k] == a[k]);
    assert(forall|k: int| 0 <= k < b.len() ==> rb[base + k] == b[k]);
    if path_strictly_under(p, rb) {
        if p == ra {
            // rb would have to end inside a, putting a separator into a
            assert(ra.len() > rb.len());
            if a.len() <= b.len() {
                assert(forall|k: int| 0 <= k < rb.len() ==> rb[k] == ra[k]);
            }
            assert(b.len() < a.len());
            assert(ra[rb.len() as int] == '/');
            assert(ra[base + b.len()] == a[b.len() as int]);
            assert(false);
        } else {
            assert(path_strictly_under(p, ra));
            if ra.len() == rb.len() {
                assert(ra =~= rb);
                assert forall|k: int| 0 <= k < a.len() implies a[k] == b[k] by {
                    assert(ra[base + k] == rb[base + k]);
                }
                assert(a =~= b);
                assert(false);
            } else if ra.len() < rb.len() {
                // the separator that p carries at ra's end falls inside b
                assert(rb =~= p.take(rb.len() as int));
                assert(rb[ra.len() as int] == p[ra.len() as int]);
                assert(p.take(ra.len() as int) =~= p.take(rb.len() as int).take(
                    ra.len() as int,
                ));
                assert(p[ra.len() as int] == '/');
                assert(rb[base + a.len()] == b[a.len() as int]);
                assert(false);
            } else {
                // the separator that p carries at rb's end falls inside a
                assert(ra =~= p.take(ra.len() as int));
                assert(ra[rb.len() as int] == p[rb.len() as int]);
                assert(p[rb.len() as int] == '/');
                assert(ra[base + b.len()] == a[b.len() as int]);
                assert(false);
            }
        }
    }
}

/// Every path that scanning one entry contributes starts with that entry's
/// own path.
proof fn lemma_scan_entry_starts(c: DirTree, prefix: Seq<char>, known: Seq<Seq<char>>)
    requires
        tree_wf(c),
        valid_dir_name(c.name@),
    ensures
        forall|k: int|
            0 <= k < spec_scan_entry(c, prefix, known).len() ==> starts_with_path(
                #[trigger] spec_scan_entry(c, prefix, known)[k],
                child_rel_path(prefix, c.name@),
            ),
    decreases c, 1nat, 0nat,
{
    let rel = child_rel_path(prefix, c.name@);
    let s = spec_scan_entry(c, prefix, known);
    if hidden_name(c.name@) || known.contains(rel) {
        assert(s.len() == 0);
    } else if c.is_repo {
        assert(s == seq![rel]);
        assert forall|k: int| 0 <= k < s.len() implies starts_with_path(#[trigger] s[k], rel) by {
            assert(s[k] == rel);
        }
    } else {
        lemma_scan_entries_under(c, 0, rel, known);
        assert(s == spec_scan_entries(c, 0, rel, known));
        assert forall|k: int| 0 <= k < s.len() implies starts_with_path(#[trigger] s[k], rel) by {
            assert(path_strictly_under(spec_scan_entries(c, 0, rel, known)[k], rel));
        }
    }
}

/// Every path that scanning the entries of `t` below the nonempty prefix `q`
/// contributes lies strictly inside `q`.
proof fn lemma_scan_entries_under(t: DirTree, i: int, q: Seq<char>, known: Seq<Seq<char>>)
    requires
        tree_wf(t),
        q.len() > 0,
    ensures
        forall|k: int|
            0 <= k < spec_scan_entries(t, i, q, known).len() ==> path_strictly_under(
                #[trigger] spec_scan_entries(t, i, q, known)[k],
                q,
            ),
    decreases t, 0nat, t.entries.len() - i,
{
    if 0 <= i < t.entries.len() {
        let c = t.entries[i];
        let head = spec_scan_entry(c, q, known);
        let tail = spec_scan_entries(t, i + 1, q, known);
        lemma_scan_entry_starts(c, q, known);
        lemma_scan_entries_under(t, i + 1, q, known);
        lemma_child_rel_under(q, c.name@);
        let s = spec_scan_entries(t, i, q, known);
        assert forall|k: int| 0 <= k < s.len() implies path_strictly_under(#[trigger] s[k], q) by {
            if k < head.len() {
                assert(s[k] == head[k]);
                if head[k] != child_rel_path(q, c.name@) {
                    lemma_under_transitive(head[k], child_rel_path(q, c.name@), q);
                }
            } else {
                assert(s[k] == tail[k - head.len()]);
            }
        }
    }
}

/// The scan result from entry `ci` on contains the repository child's path.
proof fn lemma_scan_contains_repo_child(
    t: DirTree,
    i: int,
    prefix: Seq<char>,
    known: Seq<Seq<char>>,
    ci: int,
)
    requires
        0 <= i <= ci < t.entries.len(),
        !hidden_name(t.entries[ci].name@),
        t.entries[ci].is_repo,
        !known.contains(child_rel_path(prefix, t.entries[ci].name@)),
    ensures
        spec_scan_entries(t, i, prefix, known).contains(
            child_rel_path(prefix, t.entries[ci].name@),
        ),
    decreases ci - i,
{
    let rel = child_rel_path(prefix, t.entries[ci].name@);
    let head = spec_scan_entry(t.entries[i], prefix, known);
    let tail = spec_scan_entries(t, i + 1, prefix, known);
    let s = spec_scan_entries(t, i, prefix, known);
    if i == ci {
        assert(head == seq![rel]);
        assert(s[0] == rel);
    } else {
        lemma_scan_contains_repo_child(t, i + 1, prefix, known, ci);
        let w = choose|w: int| 0 <= w < tail.len() && tail[w] == rel;
        assert(s[head.len() + w] == rel);
    }
}

/// Law: the git boundary. A visible, not-already-known repository child of
/// the scanned directory is itself discovered, and nothing strictly inside it
/// is: repositories nested within it belong to its own discovery pass.
pub proof fn lemma_discovery_git_boundary(
    t: DirTree,
    prefix: Seq<char>,
    known: Seq<Seq<char>>,
    ci: int,
)
    requires
        tree_wf(t),
        0 <= ci < t.entries.len(),
        !hidden_name(t.entries[ci].name@),
        t.entries[ci].is_repo,
        !known.contains(child_rel_path(prefix, t.entries[ci].name@)),
    ensures
        spec_scan_entries(t, 0, prefix, known).contains(
            child_rel_path(prefix, t.entries[ci].name@),
        ),
        forall|p: Seq<char>|
            spec_scan_entries(t, 0, prefix, known).contains(p) ==> !path_strictly_under(
                p,
                child_rel_path(prefix, t.entries[ci].name@),
            ),
{
    lemma_scan_contains_repo_child(t, 0, prefix, known, ci);
    lemma_scan_no_descent(t, 0, prefix, known, ci);
}

/// No scan result from entry `i` on lies strictly inside the repository
/// child at `ci`.
proof fn lemma_scan_no_descent(
    t: DirTree,
    i: int,
    prefix: Seq<char>,
    known: Seq<Seq<char>>,
    ci: int,
)
    requires
        tree_wf(t),
        0 <= ci < t.entries.len(),
        t.entries[ci].is_repo,
        0 <= i,
    ensures
        forall|p: Seq<char>|
            spec_scan_entries(t, i, prefix, known).contains(p) ==> !path_strictly_under(
                p,
                child_rel_path(prefix, t.entries[ci].name@),
            ),
    decreases t.entries.len() - i,
{
    if i < t.entries.len() {
        let c = t.entries[i];
        let rel_ci = child_rel_path(prefix, t.entries[ci].name@);
        let head = spec_scan_entry(c, prefix, known);
        let tail = spec_scan_entries(t, i + 1, prefix, known);
        let s = spec_scan_entries(t, i, prefix, known);
        lemma_scan_entry_starts(c, prefix, known);
        lemma_scan_no_descent(t, i + 1, prefix, known, ci);
        assert forall|p: Seq<char>| s.contains(p) implies !path_strictly_under(p, rel_ci) by {
            let w = choose|w: int| 0 <= w < s.len() && s[w] == p;
            if w < head.len() {
                assert(head[w] == p);
                assert(starts_with_path(p, child_rel_path(prefix, c.name@)));
                if i == ci {
                    // scanning stopped at the repository itself: only its own
                    // path is contributed
                    assert(head == seq![rel_ci] || head.len() == 0);
                    assert(p == rel_ci);
                } else {
                    lemma_distinct_children_not_nested(
                        prefix,
                        c.name@,
                        t.entries[ci].name@,
                        p,
                    );
                }
            } else {
                assert(tail[w - head.len()] == p);
                assert(tail.contains(p));
            }
        }
    }
}

} // verus!
