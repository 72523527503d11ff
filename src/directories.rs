//! Groups the install entries by destination directory into the tree of
//! directories that installation creates.  Each directory is keyed in order
//! of first appearance; each directory that holds files directly is also a
//! Component, under the same key.
use vstd::prelude::*;
use crate::resources::{dest_dir, entries_same, entry_same, ResourceEntry};
use crate::text::{decimal, zero_pad, zero_padded_decimal};

verus! {

/// A directory that installation creates.
#[derive(Debug)]
pub struct DirectoryNode {
    /// The database key of the directory.
    pub key: String,
    /// The database key of its parent directory.
    pub parent_key: String,
    /// Its name on disk.
    pub name: String,
    /// Its path below the install directory, as segments.
    pub path: Vec<String>,
    /// The names of the files installed directly in it, in entry order.
    pub files: Vec<String>,
}

/// The directory, as segments, in which an entry is installed.
pub open spec fn entry_dir(e: ResourceEntry) -> Seq<Seq<char>> {
    dest_dir(e.dest_path.deep_view())
}

/// The key of the directory at position `i` of the tree: the install
/// directory first, then `RDIR0000`, `RDIR0001`, ...
pub open spec fn node_key(i: nat) -> Seq<char> {
    if i == 0 {
        "INSTALLDIR"@
    } else {
        "RDIR"@ + zero_pad(decimal((i - 1) as nat), 4)
    }
}

/// `paths` extended by each prefix of `dir` of length `k` and up that it
/// does not hold yet, shortest first.
pub open spec fn visit_prefixes(paths: Seq<Seq<Seq<char>>>, dir: Seq<Seq<char>>, k: nat) -> Seq<
    Seq<Seq<char>>,
>
    decreases dir.len() + 1 - k,
{
    if k > dir.len() {
        paths
    } else {
        let p = dir.subrange(0, k as int);
        let next = if paths.contains(p) {
            paths
        } else {
            paths.push(p)
        };
        visit_prefixes(next, dir, k + 1)
    }
}

/// The paths of the directory tree for `es`, in order of first appearance,
/// the install directory (the empty path) first.
pub open spec fn tree_paths(es: Seq<ResourceEntry>) -> Seq<Seq<Seq<char>>>
    decreases es.len(),
{
    if es.len() == 0 {
        seq![Seq::empty()]
    } else {
        visit_prefixes(tree_paths(es.drop_last()), entry_dir(es.last()), 1)
    }
}

/// The names of the entries of `es` installed directly in `dir`, in order.
pub open spec fn files_in(es: Seq<ResourceEntry>, dir: Seq<Seq<char>>) -> Seq<Seq<char>>
    decreases es.len(),
{
    if es.len() == 0 {
        Seq::empty()
    } else if entry_dir(es.last()) == dir {
        files_in(es.drop_last(), dir).push(es.last().filename@)
    } else {
        files_in(es.drop_last(), dir)
    }
}

/// The node at position `i` has its key, name and parent.
pub open spec fn node_linked(nodes: Seq<DirectoryNode>, i: int, bundle_name: Seq<char>) -> bool {
    &&& nodes[i].key@ == node_key(i as nat)
    &&& if i == 0 {
        &&& nodes[i].path.deep_view() == Seq::<Seq<char>>::empty()
        &&& nodes[i].parent_key@ == "ProgramFilesFolder"@
        &&& nodes[i].name@ == bundle_name
    } else {
        &&& nodes[i].path.deep_view().len() > 0
        &&& nodes[i].name@ == nodes[i].path.deep_view().last()
        &&& exists|j: int|
            0 <= j < i && (#[trigger] nodes[j]).path.deep_view() == nodes[i].path.deep_view().drop_last()
                && nodes[i].parent_key@ == node_key(j as nat)
    }
}

/// The entry `e` is `o` with its component key set to that of the node
/// for its directory.
pub open spec fn entry_keyed(nodes: Seq<DirectoryNode>, o: ResourceEntry, e: ResourceEntry) -> bool {
    &&& e.source_path == o.source_path
    &&& e.dest_path == o.dest_path
    &&& e.filename == o.filename
    &&& e.size == o.size
    &&& exists|j: int|
        0 <= j < nodes.len() && (#[trigger] nodes[j]).path.deep_view() == entry_dir(o)
            && e.component_key@ == node_key(j as nat)
}

proof fn lemma_visit(paths: Seq<Seq<Seq<char>>>, dir: Seq<Seq<char>>, k: nat)
    requires
        k >= 1,
    ensures
        visit_prefixes(paths, dir, k).len() >= paths.len(),
        forall|t: int| 0 <= t < paths.len() ==> #[trigger] visit_prefixes(paths, dir, k)[t] == paths[t],
        forall|m: int| k <= m <= dir.len() ==> visit_prefixes(paths, dir, k).contains(#[trigger] dir.subrange(0, m)),
        paths.no_duplicates() ==> visit_prefixes(paths, dir, k).no_duplicates(),
    decreases dir.len() + 1 - k,
{
    if k <= dir.len() {
        let p = dir.subrange(0, k as int);
        let next = if paths.contains(p) {
            paths
        } else {
            paths.push(p)
        };
        lemma_visit(next, dir, k + 1);
        let v = visit_prefixes(next, dir, k + 1);
        assert forall|t: int| 0 <= t < paths.len() implies #[trigger] v[t] == paths[t] by {
            assert(next[t] == paths[t]);
        }
        if paths.contains(p) {
            let t = choose|t: int| 0 <= t < paths.len() && paths[t] == p;
            assert(v[t] == p);
        } else {
            assert(v[paths.len() as int] == next[paths.len() as int]);
        }
        assert(v.contains(p));
        if paths.no_duplicates() && !paths.contains(p) {
            assert(next.no_duplicates());
        }
    }
}

/// The tree's paths start with the install directory, hold no path twice,
/// and include the directory of every entry.
pub proof fn lemma_tree_paths(es: Seq<ResourceEntry>)
    ensures
        tree_paths(es).len() >= 1,
        tree_paths(es)[0] == Seq::<Seq<char>>::empty(),
        tree_paths(es).no_duplicates(),
        forall|m: int| 0 <= m < es.len() ==> tree_paths(es).contains(entry_dir(#[trigger] es[m])),
    decreases es.len(),
{
    if es.len() > 0 {
        let d = es.drop_last();
        lemma_tree_paths(d);
        let prev = tree_paths(d);
        let dir = entry_dir(es.last());
        lemma_visit(prev, dir, 1);
        let cur = tree_paths(es);
        assert(cur[0] == prev[0]);
        assert forall|m: int| 0 <= m < es.len() implies cur.contains(entry_dir(#[trigger] es[m])) by {
            if m == es.len() - 1 {
                assert(dir.subrange(0, dir.len() as int) =~= dir);
                if dir.len() == 0 {
                    assert(dir =~= prev[0]);
                    assert(cur[0] == dir);
                }
            } else {
                assert(es[m] == d[m]);
                let t = choose|t: int| 0 <= t < prev.len() && prev[t] == entry_dir(d[m]);
                assert(cur[t] == prev[t]);
            }
        }
    } else {
        assert(seq![Seq::<Seq<char>>::empty()].no_duplicates());
    }
}

proof fn lemma_files_in_nonempty(es: Seq<ResourceEntry>, dir: Seq<Seq<char>>)
    requires
        files_in(es, dir).len() > 0,
    ensures
        exists|m: int| 0 <= m < es.len() && entry_dir(#[trigger] es[m]) == dir,
    decreases es.len(),
{
    if entry_dir(es.last()) != dir {
        lemma_files_in_nonempty(es.drop_last(), dir);
        let m = choose|m: int| 0 <= m < es.len() - 1 && entry_dir(#[trigger] es.drop_last()[m]) == dir;
        assert(es[m] == es.drop_last()[m]);
    } else {
        assert(entry_dir(es[es.len() - 1]) == dir);
    }
}

/// `nodes` is the directory tree of the entries `es`: one node per path of
/// `tree_paths(es)`, in that order, keyed by position, linked to its parent,
/// and listing the files installed directly in it.
pub open spec fn tree_built(es: Seq<ResourceEntry>, nodes: Seq<DirectoryNode>, bundle_name: Seq<char>) -> bool {
    &&& nodes.len() == tree_paths(es).len()
    &&& forall|i: int| 0 <= i < nodes.len() ==> (#[trigger] nodes[i]).path.deep_view() == tree_paths(es)[i]
    &&& forall|i: int| 0 <= i < nodes.len() ==> node_linked(nodes, i, bundle_name)
    &&& forall|i: int|
        0 <= i < nodes.len() ==> (#[trigger] nodes[i]).files.deep_view() == files_in(es, nodes[i].path.deep_view())
}

/// `keyed` is `es` with each entry's component key set to the key of the
/// node for its directory.
pub open spec fn entries_keyed(es: Seq<ResourceEntry>, keyed: Seq<ResourceEntry>, nodes: Seq<DirectoryNode>) -> bool {
    &&& keyed.len() == es.len()
    &&& forall|m: int| 0 <= m < es.len() ==> entry_keyed(nodes, es[m], #[trigger] keyed[m])
}

/// `b` keeps the keys, names, parents and paths of the nodes of `a`.
pub open spec fn same_shape(a: Seq<DirectoryNode>, b: Seq<DirectoryNode>) -> bool {
    &&& a.len() <= b.len()
    &&& forall|n: int|
        0 <= n < a.len() ==> (#[trigger] b[n]).key == a[n].key && b[n].path == a[n].path && b[n].name
            == a[n].name && b[n].parent_key == a[n].parent_key
}

proof fn lemma_linked_frame(a: Seq<DirectoryNode>, b: Seq<DirectoryNode>, bundle_name: Seq<char>, n: int)
    requires
        same_shape(a, b),
        0 <= n < a.len(),
        node_linked(a, n, bundle_name),
    ensures
        node_linked(b, n, bundle_name),
{
    assert(b[n].key == a[n].key && b[n].path == a[n].path);
    if n > 0 {
        let j = choose|j: int|
            0 <= j < n && (#[trigger] a[j]).path.deep_view() == a[n].path.deep_view().drop_last()
                && a[n].parent_key@ == node_key(j as nat);
        assert(b[j].path == a[j].path);
    }
}

proof fn lemma_keyed_frame(a: Seq<DirectoryNode>, b: Seq<DirectoryNode>, o: ResourceEntry, e: ResourceEntry)
    requires
        same_shape(a, b),
        entry_keyed(a, o, e),
    ensures
        entry_keyed(b, o, e),
{
    let j = choose|j: int|
        0 <= j < a.len() && (#[trigger] a[j]).path.deep_view() == entry_dir(o) && e.component_key@
            == node_key(j as nat);
    assert(b[j].path == a[j].path);
}

/// Compares a node's path with the first `k` segments of `dest`.
fn path_is_prefix(path: &Vec<String>, dest: &Vec<String>, k: usize) -> (r: bool)
    requires
        k <= dest@.len(),
    ensures
        r == (path.deep_view() == dest.deep_view().subrange(0, k as int)),
{
    if path.len() != k {
        assert(path.deep_view().len() != dest.deep_view().subrange(0, k as int).len());
        return false;
    }
    let mut t: usize = 0;
    while t < k
        invariant
            path@.len() == k,
            k <= dest@.len(),
            t <= k,
            forall|u: int| 0 <= u < t ==> path@[u]@ == dest@[u]@,
        decreases k - t,
    {
        if path[t] != dest[t] {
            assert(path.deep_view()[t as int] != dest.deep_view().subrange(0, k as int)[t as int]);
            return false;
        }
        t = t + 1;
    }
    assert forall|u: int| 0 <= u < k implies path.deep_view()[u] == dest.deep_view().subrange(0, k as int)[u] by {
        assert(path@[u]@ == dest@[u]@);
    }
    assert(path.deep_view() =~= dest.deep_view().subrange(0, k as int));
    true
}

/// The first `k` segments of `dest`.
fn prefix_of(dest: &Vec<String>, k: usize) -> (r: Vec<String>)
    requires
        k <= dest@.len(),
    ensures
        r.deep_view() == dest.deep_view().subrange(0, k as int),
{
    let mut out: Vec<String> = Vec::new();
    let mut t: usize = 0;
    while t < k
        invariant
            k <= dest@.len(),
            t <= k,
            out.deep_view() == dest.deep_view().subrange(0, t as int),
        decreases k - t,
    {
        let seg = dest[t].clone();
        let ghost before = out.deep_view();
        out.push(seg);
        assert(out.deep_view() =~= before.push(seg@));
        assert(out.deep_view() =~= dest.deep_view().subrange(0, t + 1));
        t = t + 1;
    }
    out
}

/// The key of the node at position `i`.
fn directory_key(i: usize) -> (r: String)
    ensures
        r@ == node_key(i as nat),
{
    if i == 0 {
        String::from_str("INSTALLDIR")
    } else {
        let digits = zero_padded_decimal((i - 1) as u64, 4);
        String::from_str("RDIR").concat(digits.as_str())
    }
}

/// Builds the tree of directories that the entries are installed in, the
/// install directory (named `bundle_name`, child of `ProgramFilesFolder`)
/// first and the others in order of first appearance, and sets each
/// entry's component key to the key of its directory.
pub fn collect_directory_info(bundle_name: &str, resources: &mut Vec<ResourceEntry>) -> (r: Vec<
    DirectoryNode,
>)
    ensures
        tree_built(old(resources)@, r@, bundle_name@),
        entries_keyed(old(resources)@, final(resources)@, r@),
{
    let ghost es = resources@;
    let mut nodes: Vec<DirectoryNode> = Vec::new();
    nodes.push(
        DirectoryNode {
            key: directory_key(0),
            parent_key: String::from_str("ProgramFilesFolder"),
            name: String::from_str(bundle_name),
            path: Vec::new(),
            files: Vec::new(),
        },
    );
    proof {
        assert(nodes@[0].path.deep_view() =~= Seq::<Seq<char>>::empty());
        assert(es.subrange(0, 0) =~= Seq::<ResourceEntry>::empty());
        assert(nodes@[0].files.deep_view() =~= Seq::<Seq<char>>::empty());
    }
    let mut i: usize = 0;
    while i < resources.len()
        invariant
            i <= resources@.len(),
            resources@.len() == es.len(),
            nodes@.len() == tree_paths(es.subrange(0, i as int)).len(),
            tree_paths(es.subrange(0, i as int)).no_duplicates(),
            forall|n: int|
                0 <= n < nodes@.len() ==> (#[trigger] nodes@[n]).path.deep_view() == tree_paths(
                    es.subrange(0, i as int),
                )[n],
            forall|n: int| 0 <= n < nodes@.len() ==> node_linked(nodes@, n, bundle_name@),
            forall|n: int|
                0 <= n < nodes@.len() ==> (#[trigger] nodes@[n]).files.deep_view() == files_in(
                    es.subrange(0, i as int),
                    nodes@[n].path.deep_view(),
                ),
            forall|m: int| 0 <= m < i ==> entry_keyed(nodes@, es[m], #[trigger] resources@[m]),
            forall|m: int| i <= m < es.len() ==> #[trigger] resources@[m] == es[m],
        decreases es.len() - i,
    {
        let ghost done = es.subrange(0, i as int);
        let ghost next = es.subrange(0, i + 1);
        let ghost start_paths = tree_paths(done);
        let ghost dir = entry_dir(es[i as int]);
        proof {
            assert(next.drop_last() =~= done);
            assert(next.last() == es[i as int]);
            lemma_tree_paths(done);
            lemma_visit(start_paths, dir, 1);
        }
        let dest_len = resources[i].dest_path.len();
        let dir_len = if dest_len == 0 { 0 } else { dest_len - 1 };
        assert(dir =~= resources@[i as int].dest_path.deep_view().subrange(0, dir_len as int));
        let mut node_idx: usize = 0;
        let mut k: usize = 1;
        assert(dir.subrange(0, 0) =~= Seq::<Seq<char>>::empty());
        assert(Seq::new(nodes@.len() as nat, |n: int| nodes@[n].path.deep_view()) =~= start_paths);
        while k <= dir_len
            invariant
                1 <= k <= dir_len + 1,
                dir_len == dir.len(),
                dir_len < usize::MAX,
                dir_len <= resources@[i as int].dest_path@.len(),
                dir == resources@[i as int].dest_path.deep_view().subrange(0, dir_len as int),
                i < resources@.len(),
                resources@.len() == es.len(),
                resources@[i as int] == es[i as int],
                dir == entry_dir(es[i as int]),
                start_paths == tree_paths(done),
                start_paths.no_duplicates(),
                done == es.subrange(0, i as int),
                node_idx < nodes@.len(),
                nodes@[node_idx as int].path.deep_view() == dir.subrange(0, k - 1),
                visit_prefixes(
                    Seq::new(nodes@.len() as nat, |n: int| nodes@[n].path.deep_view()),
                    dir,
                    k as nat,
                ) == visit_prefixes(start_paths, dir, 1),
                nodes@.len() >= start_paths.len(),
                forall|n: int| 0 <= n < start_paths.len() ==> #[trigger] nodes@[n].path.deep_view() == start_paths[n],
                Seq::new(nodes@.len() as nat, |n: int| nodes@[n].path.deep_view()).no_duplicates(),
                forall|n: int| 0 <= n < nodes@.len() ==> node_linked(nodes@, n, bundle_name@),
                forall|n: int|
                    0 <= n < nodes@.len() ==> (#[trigger] nodes@[n]).files.deep_view() == files_in(
                        done,
                        nodes@[n].path.deep_view(),
                    ),
                forall|m: int| 0 <= m < i ==> entry_keyed(nodes@, es[m], #[trigger] resources@[m]),
                forall|m: int| i <= m < es.len() ==> #[trigger] resources@[m] == es[m],
            decreases dir_len + 1 - k,
        {
            let ghost cur = Seq::new(nodes@.len() as nat, |n: int| nodes@[n].path.deep_view());
            let ghost p = dir.subrange(0, k as int);
            let mut found = false;
            let mut j: usize = 0;
            while j < nodes.len()
                invariant
                    j <= nodes@.len(),
                    1 <= k <= dir_len,
                    dir_len == dir.len(),
                    dir_len <= resources@[i as int].dest_path@.len(),
                    i < resources@.len(),
                    dir == resources@[i as int].dest_path.deep_view().subrange(0, dir_len as int),
                    cur == Seq::new(nodes@.len() as nat, |n: int| nodes@[n].path.deep_view()),
                    p == dir.subrange(0, k as int),
                    found ==> node_idx < nodes@.len() && cur[node_idx as int] == p,
                    !found ==> forall|n: int| 0 <= n < j ==> cur[n] != p,
                    !found ==> node_idx < nodes@.len() && nodes@[node_idx as int].path.deep_view() == dir.subrange(0, k - 1),
                decreases nodes@.len() - j,
            {
                if !found {
                    let same = path_is_prefix(&nodes[j].path, &resources[i].dest_path, k);
                    if same {
                        assert(resources@[i as int].dest_path.deep_view().subrange(0, k as int) =~= p);
                        found = true;
                        node_idx = j;
                    } else {
                        assert(resources@[i as int].dest_path.deep_view().subrange(0, k as int) =~= p);
                    }
                }
                j = j + 1;
            }
            if found {
                assert(cur.contains(p));
            } else {
                assert(!cur.contains(p));
                let parent_key = nodes[node_idx].key.clone();
                let path = prefix_of(&resources[i].dest_path, k);
                let name = resources[i].dest_path[k - 1].clone();
                let new_idx = nodes.len();
                proof {
                    assert(path.deep_view() =~= p);
                    assert(p.last() == name@);
                    assert(p.drop_last() =~= dir.subrange(0, k - 1));
                    if files_in(done, p).len() > 0 {
                        lemma_files_in_nonempty(done, p);
                        let m = choose|m: int| 0 <= m < done.len() && entry_dir(#[trigger] done[m]) == p;
                        lemma_tree_paths(done);
                        assert(start_paths.contains(entry_dir(done[m])));
                        let t = choose|t: int| 0 <= t < start_paths.len() && start_paths[t] == p;
                        assert(cur[t] == p);
                    }
                }
                let ghost before_nodes = nodes@;
                nodes.push(
                    DirectoryNode {
                        key: directory_key(new_idx),
                        parent_key,
                        name,
                        path,
                        files: Vec::new(),
                    },
                );
                proof {
                    assert(nodes@[new_idx as int].files.deep_view() =~= files_in(done, p));
                    let cur2 = Seq::new(nodes@.len() as nat, |n: int| nodes@[n].path.deep_view());
                    assert(cur2 =~= cur.push(p));
                    assert(same_shape(before_nodes, nodes@));
                    assert(node_linked(before_nodes, node_idx as int, bundle_name@));
                    assert forall|n: int| 0 <= n < nodes@.len() implies node_linked(nodes@, n, bundle_name@) by {
                        if n < new_idx {
                            lemma_linked_frame(before_nodes, nodes@, bundle_name@, n);
                        } else {
                            assert(new_idx > 0);
                            assert(nodes@[node_idx as int].path.deep_view() == p.drop_last());
                            assert(nodes@[node_idx as int].key@ == node_key(node_idx as nat));
                            assert(nodes@[n].parent_key@ == node_key(node_idx as nat));
                        }
                    }
                    assert forall|m: int| 0 <= m < i implies entry_keyed(nodes@, es[m], #[trigger] resources@[m]) by {
                        lemma_keyed_frame(before_nodes, nodes@, es[m], resources@[m]);
                    }
                }
                node_idx = new_idx;
            }
            k = k + 1;
        }
        proof {
            let cur = Seq::new(nodes@.len() as nat, |n: int| nodes@[n].path.deep_view());
            assert(visit_prefixes(cur, dir, k as nat) == cur);
            assert(tree_paths(next) == visit_prefixes(start_paths, dir, 1));
            assert(dir.subrange(0, dir_len as int) =~= dir);
        }
        let filename = resources[i].filename.clone();
        let key = nodes[node_idx].key.clone();
        let ghost before_files = nodes@[node_idx as int].files.deep_view();
        let ghost before_nodes = nodes@;
        let ghost before_res = resources@;
        nodes[node_idx].files.push(filename);
        assert(nodes@[node_idx as int].files.deep_view() =~= before_files.push(es[i as int].filename@));
        resources[i].component_key = key;
        proof {
            let cur = Seq::new(before_nodes.len() as nat, |n: int| before_nodes[n].path.deep_view());
            assert(same_shape(before_nodes, nodes@));
            assert(node_linked(before_nodes, node_idx as int, bundle_name@));
            assert forall|n: int| 0 <= n < nodes@.len() implies node_linked(nodes@, n, bundle_name@) by {
                lemma_linked_frame(before_nodes, nodes@, bundle_name@, n);
            }
            assert forall|n: int| 0 <= n < nodes@.len() implies (#[trigger] nodes@[n]).path.deep_view()
                == tree_paths(next)[n] by {
                assert(cur[n] == before_nodes[n].path.deep_view());
            }
            assert forall|n: int| 0 <= n < nodes@.len() implies (#[trigger] nodes@[n]).files.deep_view()
                == files_in(next, nodes@[n].path.deep_view()) by {
                if n != node_idx {
                    assert(cur[n] != cur[node_idx as int]);
                    assert(nodes@[n] == before_nodes[n]);
                }
            }
            assert forall|m: int| 0 <= m < i + 1 implies entry_keyed(nodes@, es[m], #[trigger] resources@[m]) by {
                if m < i {
                    assert(resources@[m] == before_res[m]);
                    lemma_keyed_frame(before_nodes, nodes@, es[m], resources@[m]);
                } else {
                    assert(nodes@[node_idx as int].path.deep_view() == entry_dir(es[m]));
                }
            }
            assert forall|m: int| i + 1 <= m < es.len() implies #[trigger] resources@[m] == es[m] by {
                assert(resources@[m] == before_res[m]);
            }
        }
        i = i + 1;
    }
    assert(es.subrange(0, es.len() as int) =~= es);
    nodes
}

/// `a` and `b` hold the same values field by field.
pub open spec fn node_same(a: DirectoryNode, b: DirectoryNode) -> bool {
    &&& a.key@ == b.key@
    &&& a.parent_key@ == b.parent_key@
    &&& a.name@ == b.name@
    &&& a.path.deep_view() == b.path.deep_view()
    &&& a.files.deep_view() == b.files.deep_view()
}

proof fn lemma_same_files_in(a: Seq<ResourceEntry>, b: Seq<ResourceEntry>, dir: Seq<Seq<char>>)
    requires
        entries_same(a, b),
    ensures
        files_in(a, dir) == files_in(b, dir),
    decreases a.len(),
{
    if a.len() > 0 {
        assert(entry_same(a[a.len() - 1], b[b.len() - 1]));
        assert(entries_same(a.drop_last(), b.drop_last())) by {
            assert forall|i: int| 0 <= i < a.drop_last().len() implies entry_same(#[trigger] a.drop_last()[i], b.drop_last()[i]) by {
                assert(entry_same(a[i], b[i]));
            }
        }
        lemma_same_files_in(a.drop_last(), b.drop_last(), dir);
    }
}

proof fn lemma_same_tree_paths(a: Seq<ResourceEntry>, b: Seq<ResourceEntry>)
    requires
        entries_same(a, b),
    ensures
        tree_paths(a) == tree_paths(b),
    decreases a.len(),
{
    if a.len() > 0 {
        assert(entry_same(a[a.len() - 1], b[b.len() - 1]));
        assert(entries_same(a.drop_last(), b.drop_last())) by {
            assert forall|i: int| 0 <= i < a.drop_last().len() implies entry_same(#[trigger] a.drop_last()[i], b.drop_last()[i]) by {
                assert(entry_same(a[i], b[i]));
            }
        }
        lemma_same_tree_paths(a.drop_last(), b.drop_last());
    }
}

/// The directory tree is determined by the entries: trees built for the
/// same entries hold the same nodes, and key the same entries alike.
pub proof fn lemma_tree_determined(
    es1: Seq<ResourceEntry>,
    es2: Seq<ResourceEntry>,
    n1: Seq<DirectoryNode>,
    n2: Seq<DirectoryNode>,
    k1: Seq<ResourceEntry>,
    k2: Seq<ResourceEntry>,
    bundle_name: Seq<char>,
)
    requires
        entries_same(es1, es2),
        tree_built(es1, n1, bundle_name),
        tree_built(es2, n2, bundle_name),
        entries_keyed(es1, k1, n1),
        entries_keyed(es2, k2, n2),
    ensures
        n1.len() == n2.len(),
        forall|i: int| 0 <= i < n1.len() ==> node_same(#[trigger] n1[i], n2[i]),
        entries_same(k1, k2),
{
    lemma_same_tree_paths(es1, es2);
    lemma_tree_paths(es1);
    let paths = tree_paths(es1);
    assert forall|i: int| 0 <= i < n1.len() implies node_same(#[trigger] n1[i], n2[i]) by {
        assert(n1[i].path.deep_view() == paths[i]);
        assert(n2[i].path.deep_view() == paths[i]);
        lemma_same_files_in(es1, es2, paths[i]);
        assert(node_linked(n1, i, bundle_name));
        assert(node_linked(n2, i, bundle_name));
        if i > 0 {
            let j1 = choose|j: int|
                0 <= j < i && (#[trigger] n1[j]).path.deep_view() == n1[i].path.deep_view().drop_last()
                    && n1[i].parent_key@ == node_key(j as nat);
            let j2 = choose|j: int|
                0 <= j < i && (#[trigger] n2[j]).path.deep_view() == n2[i].path.deep_view().drop_last()
                    && n2[i].parent_key@ == node_key(j as nat);
            assert(paths[j1] == paths[j2]);
        }
    }
    assert forall|m: int| 0 <= m < k1.len() implies entry_same(#[trigger] k1[m], k2[m]) by {
        assert(entry_keyed(n1, es1[m], k1[m]));
        assert(entry_keyed(n2, es2[m], k2[m]));
        assert(entry_same(es1[m], es2[m]));
        let j1 = choose|j: int|
            0 <= j < n1.len() && (#[trigger] n1[j]).path.deep_view() == entry_dir(es1[m])
                && k1[m].component_key@ == node_key(j as nat);
        let j2 = choose|j: int|
            0 <= j < n2.len() && (#[trigger] n2[j]).path.deep_view() == entry_dir(es2[m])
                && k2[m].component_key@ == node_key(j as nat);
        assert(paths[j1] == paths[j2]);
    }
}

} // verus!
