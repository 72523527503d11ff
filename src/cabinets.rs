//! Splits the install entries into cabinets (the compressed archives that
//! carry the file bytes) and each cabinet into compression folders.
use vstd::prelude::*;
use vstd::multiset::Multiset;
use crate::resources::{entries_same, entry_same, ResourceEntry};
use crate::text::{decimal, zero_pad, zero_padded_decimal};

verus! {

/// The most bytes that one compression folder holds, unless it holds a
/// single file that is larger on its own.
pub const CABINET_FOLDER_SIZE_LIMIT: u64 = 0x8000;

/// The most files that one cabinet holds.
pub const CABINET_MAX_FILES: usize = 1000;

/// The most bytes that one cabinet holds, unless it holds a single file that
/// is larger on its own.
pub const CABINET_MAX_SIZE: u64 = 0x1000_0000;

/// A compressed archive inside the package and the entries it carries.
#[derive(Debug)]
pub struct Cabinet {
    /// The stream name of the cabinet inside the package.
    pub name: String,
    /// The entries it carries, in order.
    pub resources: Vec<ResourceEntry>,
}

/// The total size in bytes of the entries.
pub open spec fn total_size(es: Seq<ResourceEntry>) -> nat
    decreases es.len(),
{
    if es.len() == 0 {
        0
    } else {
        total_size(es.drop_last()) + es.last().size as nat
    }
}

/// Whether a cabinet that so far holds `cab` takes `e` as well.
pub open spec fn admits(cab: Seq<ResourceEntry>, e: ResourceEntry) -> bool {
    &&& cab.len() < CABINET_MAX_FILES
    &&& (cab.len() == 0 || total_size(cab) + e.size <= CABINET_MAX_SIZE)
    &&& forall|k: int| 0 <= k < cab.len() ==> (#[trigger] cab[k]).filename@ != e.filename@
}

/// One greedy pass over `es` in order: the entries that the cabinet takes,
/// and those left over for later cabinets.
pub open spec fn fill(es: Seq<ResourceEntry>) -> (Seq<ResourceEntry>, Seq<ResourceEntry>)
    decreases es.len(),
{
    if es.len() == 0 {
        (Seq::empty(), Seq::empty())
    } else {
        let (cab, left) = fill(es.drop_last());
        if admits(cab, es.last()) {
            (cab.push(es.last()), left)
        } else {
            (cab, left.push(es.last()))
        }
    }
}

/// The cabinets, as entry lists, that `es` is divided into: greedy passes
/// repeated on what is left over until nothing is.
pub open spec fn partition(es: Seq<ResourceEntry>) -> Seq<Seq<ResourceEntry>>
    decreases es.len(),
{
    if es.len() == 0 {
        Seq::empty()
    } else {
        let (cab, left) = fill(es);
        if left.len() < es.len() {
            seq![cab] + partition(left)
        } else {
            seq![cab]
        }
    }
}

/// The stream name of the cabinet at position `i`.
pub open spec fn cabinet_name(i: nat) -> Seq<char> {
    "rsrc"@ + zero_pad(decimal(i), 4) + ".cab"@
}

/// A pass keeps every entry, in one of its two outputs, and takes the first
/// entry of a non-empty list.
pub proof fn lemma_fill_sizes(es: Seq<ResourceEntry>)
    ensures
        fill(es).0.len() + fill(es).1.len() == es.len(),
        fill(es).0.to_multiset().add(fill(es).1.to_multiset()) == es.to_multiset(),
        es.len() > 0 ==> fill(es).0.len() >= 1,
    decreases es.len(),
{
    broadcast use vstd::seq_lib::group_to_multiset_ensures;
    if es.len() > 0 {
        lemma_fill_sizes(es.drop_last());
        let (cab, left) = fill(es.drop_last());
        assert(es.drop_last().push(es.last()) =~= es);
        if cab.len() == 0 {
            assert(admits(cab, es.last()));
        }
        assert(fill(es).0.to_multiset().add(fill(es).1.to_multiset()) =~= es.to_multiset());
    }
}

/// The same items in reverse order.
fn reversed<T>(v: Vec<T>) -> (r: Vec<T>)
    ensures
        r@.len() == v@.len(),
        forall|j: int| 0 <= j < v@.len() ==> #[trigger] r@[j] == v@[v@.len() - 1 - j],
{
    let ghost orig = v@;
    let mut v = v;
    let mut r: Vec<T> = Vec::new();
    while v.len() > 0
        invariant
            v@.len() + r@.len() == orig.len(),
            forall|j: int| 0 <= j < v@.len() ==> #[trigger] v@[j] == orig[j],
            forall|j: int| 0 <= j < r@.len() ==> #[trigger] r@[j] == orig[orig.len() - 1 - j],
        decreases v@.len(),
    {
        let x = v.pop().unwrap();
        r.push(x);
    }
    r
}

/// The entries that one cabinet takes, and those it leaves, from `es`.
fn fill_cabinet(es: Vec<ResourceEntry>) -> (r: (Vec<ResourceEntry>, Vec<ResourceEntry>))
    ensures
        (r.0@, r.1@) == fill(es@),
{
    let n = es.len();
    let ghost all = es@;
    let mut stack = reversed(es);
    let mut cab: Vec<ResourceEntry> = Vec::new();
    let mut left: Vec<ResourceEntry> = Vec::new();
    let mut total: u64 = 0;
    let mut i: usize = 0;
    assert(all.subrange(0, 0) =~= Seq::<ResourceEntry>::empty());
    while i < n
        invariant
            n == all.len(),
            i <= n,
            stack@.len() == n - i,
            forall|j: int| 0 <= j < n - i ==> #[trigger] stack@[j] == all[n - 1 - j],
            (cab@, left@) == fill(all.subrange(0, i as int)),
            total as nat == total_size(cab@),
        decreases n - i,
    {
        let e = stack.pop().unwrap();
        assert(e == all[i as int]);
        let ghost prefix = all.subrange(0, i + 1);
        assert(prefix.drop_last() =~= all.subrange(0, i as int));
        assert(prefix.last() == e);
        let mut clash = false;
        let mut k: usize = 0;
        while k < cab.len()
            invariant
                k <= cab@.len(),
                clash == exists|m: int| 0 <= m < k && (#[trigger] cab@[m]).filename@ == e.filename@,
            decreases cab@.len() - k,
        {
            if cab[k].filename == e.filename {
                clash = true;
            }
            k = k + 1;
        }
        let fits = cab.len() == 0 || (total <= CABINET_MAX_SIZE && e.size <= CABINET_MAX_SIZE - total);
        if cab.len() < CABINET_MAX_FILES && fits && !clash {
            total = total + e.size;
            let ghost before = cab@;
            cab.push(e);
            assert(cab@.drop_last() =~= before);
        } else {
            left.push(e);
        }
        i = i + 1;
    }
    assert(all.subrange(0, n as int) =~= all);
    (cab, left)
}

/// Divides the entries into cabinets such that 1) no cabinet holds two
/// entries with the same filename, 2) no cabinet holds more than
/// `CABINET_MAX_FILES` entries, and 3) no cabinet holds more than
/// `CABINET_MAX_SIZE` bytes, unless it holds a single entry that is larger
/// on its own.  Each cabinet is filled by one pass over the remaining
/// entries in order.
pub fn divide_resources_into_cabinets(resources: Vec<ResourceEntry>) -> (r: Vec<Cabinet>)
    ensures
        r@.len() == partition(resources@).len(),
        forall|i: int|
            0 <= i < r@.len() ==> (#[trigger] r@[i]).resources@ == partition(resources@)[i]
                && r@[i].name@ == cabinet_name(i as nat),
{
    let ghost all = resources@;
    let mut cabinets: Vec<Cabinet> = Vec::new();
    let mut rest = resources;
    while rest.len() > 0
        invariant
            cabinets@.len() + partition(rest@).len() == partition(all).len(),
            forall|i: int|
                0 <= i < cabinets@.len() ==> (#[trigger] cabinets@[i]).resources@ == partition(all)[i]
                    && cabinets@[i].name@ == cabinet_name(i as nat),
            forall|i: int|
                0 <= i < partition(rest@).len() ==> #[trigger] partition(rest@)[i] == partition(all)[cabinets@.len() + i],
        decreases rest@.len(),
    {
        proof {
            lemma_fill_sizes(rest@);
        }
        let ghost old_rest = rest@;
        let (cab, left) = fill_cabinet(rest);
        assert(partition(old_rest) == seq![cab@] + partition(left@));
        let name = zero_padded_decimal(cabinets.len() as u64, 4);
        let name = String::from_str("rsrc").concat(name.as_str()).concat(".cab");
        assert(cab@ == partition(all)[cabinets@.len() as int]) by {
            assert(partition(old_rest)[0] == cab@);
        }
        cabinets.push(Cabinet { name, resources: cab });
        assert forall|i: int| 0 <= i < partition(left@).len() implies #[trigger] partition(left@)[i]
            == partition(all)[cabinets@.len() + i] by {
            assert(partition(left@)[i] == partition(old_rest)[i + 1]);
        }
        rest = left;
    }
    cabinets
}

/// Whether no two entries of `es` share a filename.
pub open spec fn filenames_distinct(es: Seq<ResourceEntry>) -> bool {
    forall|a: int, b: int|
        0 <= a < b < es.len() ==> (#[trigger] es[a]).filename@ != (#[trigger] es[b]).filename@
}

/// Whether `cab` keeps within the size limit, or is a single entry that
/// exceeds it alone.
pub open spec fn within_size_limit(cab: Seq<ResourceEntry>) -> bool {
    total_size(cab) <= CABINET_MAX_SIZE || (cab.len() == 1 && cab[0].size > CABINET_MAX_SIZE)
}

proof fn lemma_fill_bounds(es: Seq<ResourceEntry>)
    ensures
        filenames_distinct(fill(es).0),
        within_size_limit(fill(es).0),
        fill(es).0.len() <= CABINET_MAX_FILES,
    decreases es.len(),
{
    if es.len() > 0 {
        lemma_fill_bounds(es.drop_last());
        let (cab, left) = fill(es.drop_last());
        let e = es.last();
        if admits(cab, e) {
            let c2 = cab.push(e);
            assert(c2.drop_last() =~= cab);
            assert forall|a: int, b: int| 0 <= a < b < c2.len() implies (#[trigger] c2[a]).filename@
                != (#[trigger] c2[b]).filename@ by {
                if b == cab.len() {
                    assert(cab[a] == c2[a]);
                } else {
                    assert(cab[a] == c2[a] && cab[b] == c2[b]);
                }
            }
        }
    }
}

proof fn lemma_partition_parts(es: Seq<ResourceEntry>, i: int)
    requires
        0 <= i < partition(es).len(),
    ensures
        filenames_distinct(partition(es)[i]),
        within_size_limit(partition(es)[i]),
        partition(es)[i].len() <= CABINET_MAX_FILES,
    decreases es.len(),
{
    lemma_fill_sizes(es);
    lemma_fill_bounds(es);
    let (cab, left) = fill(es);
    if i > 0 {
        assert(partition(es)[i] == partition(left)[i - 1]);
        lemma_partition_parts(left, i - 1);
    }
}

/// No cabinet holds two entries with the same filename.
pub proof fn lemma_cabinet_filenames_distinct(es: Seq<ResourceEntry>, i: int, a: int, b: int)
    requires
        0 <= i < partition(es).len(),
        0 <= a < b < partition(es)[i].len(),
    ensures
        partition(es)[i][a].filename@ != partition(es)[i][b].filename@,
{
    lemma_partition_parts(es, i);
}

/// Every cabinet holds at most `CABINET_MAX_SIZE` bytes, or else exactly
/// one entry, which alone exceeds that limit.
pub proof fn lemma_cabinet_size_limit(es: Seq<ResourceEntry>, i: int)
    requires
        0 <= i < partition(es).len(),
    ensures
        total_size(partition(es)[i]) <= CABINET_MAX_SIZE || (partition(es)[i].len() == 1
            && partition(es)[i][0].size > CABINET_MAX_SIZE),
{
    lemma_partition_parts(es, i);
}

/// Every cabinet holds at most `CABINET_MAX_FILES` entries.
pub proof fn lemma_cabinet_file_limit(es: Seq<ResourceEntry>, i: int)
    requires
        0 <= i < partition(es).len(),
    ensures
        partition(es)[i].len() <= CABINET_MAX_FILES,
{
    lemma_partition_parts(es, i);
}

/// Partitioning is total and lossless: taken together, the cabinets hold
/// every entry exactly as often as the input does, and no cabinet is empty.
pub proof fn lemma_partition_lossless(es: Seq<ResourceEntry>)
    ensures
        partition(es).flatten().to_multiset() == es.to_multiset(),
        forall|i: int| 0 <= i < partition(es).len() ==> (#[trigger] partition(es)[i]).len() >= 1,
    decreases es.len(),
{
    broadcast use vstd::seq_lib::group_to_multiset_ensures;
    broadcast use vstd::seq_lib::lemma_multiset_commutative;
    if es.len() == 0 {
        assert(es.to_multiset() =~= Multiset::empty());
    } else {
        lemma_fill_sizes(es);
        let (cab, left) = fill(es);
        lemma_partition_lossless(left);
        let p = partition(es);
        assert(p == seq![cab] + partition(left));
        assert(p.first() == cab);
        assert(p.drop_first() =~= partition(left));
        assert(p.flatten() == cab + partition(left).flatten());
        assert forall|i: int| 0 <= i < p.len() implies (#[trigger] p[i]).len() >= 1 by {
            if i > 0 {
                assert(p[i] == partition(left)[i - 1]);
            }
        }
    }
}

proof fn lemma_total_size_concat(a: Seq<ResourceEntry>, b: Seq<ResourceEntry>)
    ensures
        total_size(a + b) == total_size(a) + total_size(b),
    decreases b.len(),
{
    if b.len() == 0 {
        assert(a + b =~= a);
    } else {
        lemma_total_size_concat(a, b.drop_last());
        assert((a + b).drop_last() =~= a + b.drop_last());
    }
}

proof fn lemma_fill_in_order(es: Seq<ResourceEntry>)
    requires
        filenames_distinct(es),
        total_size(es) <= CABINET_MAX_SIZE,
    ensures
        es.len() <= CABINET_MAX_FILES ==> fill(es).0 == es && fill(es).1.len() == 0,
        es.len() > CABINET_MAX_FILES ==> fill(es).0 == es.subrange(0, CABINET_MAX_FILES as int)
            && fill(es).1 == es.subrange(CABINET_MAX_FILES as int, es.len() as int),
    decreases es.len(),
{
    if es.len() > 0 {
        let d = es.drop_last();
        let e = es.last();
        assert(d + seq![e] =~= es);
        lemma_total_size_concat(d, seq![e]);
        assert(total_size(seq![e]) == e.size) by {
            assert(seq![e].drop_last() =~= Seq::<ResourceEntry>::empty());
        }
        assert(filenames_distinct(d)) by {
            assert forall|a: int, b: int| 0 <= a < b < d.len() implies (#[trigger] d[a]).filename@
                != (#[trigger] d[b]).filename@ by {
                assert(d[a] == es[a] && d[b] == es[b]);
            }
        }
        lemma_fill_in_order(d);
        let (cab, left) = fill(d);
        if d.len() < CABINET_MAX_FILES {
            assert(cab == d);
            assert forall|k: int| 0 <= k < cab.len() implies (#[trigger] cab[k]).filename@ != e.filename@ by {
                assert(cab[k] == es[k]);
                assert(e == es[es.len() - 1]);
            }
            assert(admits(cab, e));
            assert(cab.push(e) =~= es);
        } else if d.len() == CABINET_MAX_FILES {
            assert(cab == d);
            assert(!admits(cab, e));
            assert(cab =~= es.subrange(0, CABINET_MAX_FILES as int));
            assert(left.push(e) =~= es.subrange(CABINET_MAX_FILES as int, es.len() as int));
        } else {
            assert(cab.len() == CABINET_MAX_FILES);
            assert(!admits(cab, e));
            assert(cab =~= es.subrange(0, CABINET_MAX_FILES as int));
            assert(left.push(e) =~= es.subrange(CABINET_MAX_FILES as int, es.len() as int));
        }
    }
}

/// When all filenames differ and all entries fit in one cabinet's byte
/// limit, the cabinets taken in order hold exactly the input list: only the
/// file-count limit splits it, and it splits without reordering.
pub proof fn lemma_partition_keeps_order(es: Seq<ResourceEntry>)
    requires
        filenames_distinct(es),
        total_size(es) <= CABINET_MAX_SIZE,
    ensures
        partition(es).flatten() == es,
    decreases es.len(),
{
    if es.len() > 0 {
        lemma_fill_in_order(es);
        lemma_fill_sizes(es);
        let (cab, left) = fill(es);
        let p = partition(es);
        if es.len() > CABINET_MAX_FILES {
            let m = CABINET_MAX_FILES as int;
            assert(es =~= es.subrange(0, m) + left);
            lemma_total_size_concat(es.subrange(0, m), left);
            assert(filenames_distinct(left)) by {
                assert forall|a: int, b: int| 0 <= a < b < left.len() implies (#[trigger] left[a]).filename@
                    != (#[trigger] left[b]).filename@ by {
                    assert(left[a] == es[a + m] && left[b] == es[b + m]);
                }
            }
            lemma_partition_keeps_order(left);
            assert(p.first() == cab);
            assert(p.drop_first() =~= partition(left));
            assert(p.flatten() == cab + partition(left).flatten());
        } else {
            assert(partition(left) =~= Seq::<Seq<ResourceEntry>>::empty());
            assert(p.first() == cab);
            assert(p.drop_first() =~= partition(left));
            assert(p.flatten() == cab + partition(left).flatten());
            assert(partition(left).flatten() =~= Seq::<ResourceEntry>::empty());
        }
    }
}

/// Where the folder that starts at `es[0]` ends, given that it holds the
/// entries before position `k`, `acc` bytes in all: entry `k` joins it if
/// and only if the folder is empty or the folder's total plus entry `k`'s
/// size is at most `CABINET_FOLDER_SIZE_LIMIT`; otherwise it starts the
/// next folder.
pub open spec fn folder_end(es: Seq<ResourceEntry>, k: nat, acc: nat) -> nat
    decreases es.len() - k,
{
    if k >= es.len() {
        k
    } else if k > 0 && acc + es[k as int].size > CABINET_FOLDER_SIZE_LIMIT {
        k
    } else {
        folder_end(es, k + 1, acc + es[k as int].size as nat)
    }
}

/// The number of entries in each compression folder of a cabinet holding
/// `es`, in order.
pub open spec fn folder_lengths(es: Seq<ResourceEntry>) -> Seq<nat>
    decreases es.len(),
{
    if es.len() == 0 {
        Seq::empty()
    } else {
        let k = folder_end(es, 0, 0);
        if 0 < k <= es.len() {
            seq![k] + folder_lengths(es.subrange(k as int, es.len() as int))
        } else {
            Seq::empty()
        }
    }
}

proof fn lemma_folder_end_bounds(es: Seq<ResourceEntry>, k: nat, acc: nat)
    requires
        k <= es.len(),
    ensures
        k <= folder_end(es, k, acc) <= es.len(),
        k == 0 < es.len() ==> k < folder_end(es, k, acc),
    decreases es.len() - k,
{
    if k < es.len() && !(k > 0 && acc + es[k as int].size > CABINET_FOLDER_SIZE_LIMIT) {
        lemma_folder_end_bounds(es, k + 1, acc + es[k as int].size as nat);
    }
}

/// Whether an entry of `size` bytes joins a folder that holds `total` bytes
/// (and no entry at all, when `empty`).
fn joins_folder(empty: bool, total: u64, size: u64) -> (r: bool)
    ensures
        r == (empty || total as nat + size as nat <= CABINET_FOLDER_SIZE_LIMIT),
{
    empty || (total <= CABINET_FOLDER_SIZE_LIMIT && size <= CABINET_FOLDER_SIZE_LIMIT - total)
}

/// The number of entries in each compression folder of a cabinet holding
/// `resources`: entries join the current folder in order, and an entry
/// that would take a non-empty folder past `CABINET_FOLDER_SIZE_LIMIT`
/// bytes starts a new one.
pub fn cabinet_folders(resources: &Vec<ResourceEntry>) -> (r: Vec<usize>)
    ensures
        r@.len() == folder_lengths(resources@).len(),
        forall|i: int| 0 <= i < r@.len() ==> r@[i] as nat == #[trigger] folder_lengths(resources@)[i],
{
    let n = resources.len();
    let ghost all = resources@;
    let mut counts: Vec<usize> = Vec::new();
    let mut index: usize = 0;
    assert(all.subrange(0, n as int) =~= all);
    while index < n
        invariant
            n == all.len(),
            all == resources@,
            index <= n,
            counts@.len() + folder_lengths(all.subrange(index as int, n as int)).len()
                == folder_lengths(all).len(),
            forall|i: int| 0 <= i < counts@.len() ==> counts@[i] as nat == #[trigger] folder_lengths(all)[i],
            forall|i: int|
                0 <= i < folder_lengths(all.subrange(index as int, n as int)).len()
                    ==> #[trigger] folder_lengths(all.subrange(index as int, n as int))[i]
                    == folder_lengths(all)[counts@.len() + i],
        decreases n - index,
    {
        let start = index;
        let ghost sub = all.subrange(start as int, n as int);
        let mut folder_size: u64 = 0;
        proof {
            lemma_folder_end_bounds(sub, 0, 0);
        }
        while index < n && joins_folder(index == start, folder_size, resources[index].size)
            invariant
                n == all.len(),
                all == resources@,
                start <= index <= n,
                sub == all.subrange(start as int, n as int),
                index == start ==> folder_size == 0,
                folder_end(sub, (index - start) as nat, folder_size as nat) == folder_end(sub, 0, 0),
            decreases n - index,
        {
            let size = resources[index].size;
            assert(sub[(index - start) as int] == all[index as int]);
            folder_size = folder_size + size;
            index = index + 1;
        }
        let k = index - start;
        proof {
            if index < n {
                assert(sub[k as int] == all[index as int]);
            }
            assert(folder_end(sub, k as nat, folder_size as nat) == k);
            assert(sub.subrange(k as int, sub.len() as int) =~= all.subrange(index as int, n as int));
            assert(folder_lengths(sub) == seq![k as nat] + folder_lengths(all.subrange(index as int, n as int)));
        }
        assert(folder_lengths(sub)[0] == k as nat);
        assert(folder_lengths(all)[counts@.len() as int] == k as nat);
        counts.push(k);
        assert forall|i: int|
            0 <= i < folder_lengths(all.subrange(index as int, n as int)).len()
                implies #[trigger] folder_lengths(all.subrange(index as int, n as int))[i]
                == folder_lengths(all)[counts@.len() + i] by {
            assert(folder_lengths(all.subrange(index as int, n as int))[i] == folder_lengths(sub)[i + 1]);
        }
    }
    counts
}

proof fn lemma_same_drop_last(a: Seq<ResourceEntry>, b: Seq<ResourceEntry>)
    requires
        entries_same(a, b),
        a.len() > 0,
    ensures
        entries_same(a.drop_last(), b.drop_last()),
        entry_same(a.last(), b.last()),
{
    assert(entry_same(a[a.len() - 1], b[b.len() - 1]));
    assert forall|i: int| 0 <= i < a.drop_last().len() implies entry_same(#[trigger] a.drop_last()[i], b.drop_last()[i]) by {
        assert(entry_same(a[i], b[i]));
    }
}

proof fn lemma_same_push(a: Seq<ResourceEntry>, b: Seq<ResourceEntry>, x: ResourceEntry, y: ResourceEntry)
    requires
        entries_same(a, b),
        entry_same(x, y),
    ensures
        entries_same(a.push(x), b.push(y)),
{
    assert forall|i: int| 0 <= i < a.push(x).len() implies entry_same(#[trigger] a.push(x)[i], b.push(y)[i]) by {
        if i < a.len() {
            assert(entry_same(a[i], b[i]));
        }
    }
}

proof fn lemma_same_total_size(a: Seq<ResourceEntry>, b: Seq<ResourceEntry>)
    requires
        entries_same(a, b),
    ensures
        total_size(a) == total_size(b),
    decreases a.len(),
{
    if a.len() > 0 {
        lemma_same_drop_last(a, b);
        lemma_same_total_size(a.drop_last(), b.drop_last());
    }
}

proof fn lemma_same_fill(a: Seq<ResourceEntry>, b: Seq<ResourceEntry>)
    requires
        entries_same(a, b),
    ensures
        entries_same(fill(a).0, fill(b).0),
        entries_same(fill(a).1, fill(b).1),
    decreases a.len(),
{
    if a.len() > 0 {
        lemma_same_drop_last(a, b);
        lemma_same_fill(a.drop_last(), b.drop_last());
        let (c1, l1) = fill(a.drop_last());
        let (c2, l2) = fill(b.drop_last());
        lemma_same_total_size(c1, c2);
        assert(admits(c1, a.last()) == admits(c2, b.last())) by {
            if admits(c1, a.last()) {
                assert forall|k: int| 0 <= k < c2.len() implies (#[trigger] c2[k]).filename@ != b.last().filename@ by {
                    assert(entry_same(c1[k], c2[k]));
                }
            }
            if admits(c2, b.last()) {
                assert forall|k: int| 0 <= k < c1.len() implies (#[trigger] c1[k]).filename@ != a.last().filename@ by {
                    assert(entry_same(c1[k], c2[k]));
                }
            }
        }
        if admits(c1, a.last()) {
            lemma_same_push(c1, c2, a.last(), b.last());
        } else {
            lemma_same_push(l1, l2, a.last(), b.last());
        }
    }
}

/// The partition is determined by the entries' values: entries that hold
/// the same values are divided alike.
pub proof fn lemma_partition_determined(a: Seq<ResourceEntry>, b: Seq<ResourceEntry>)
    requires
        entries_same(a, b),
    ensures
        partition(a).len() == partition(b).len(),
        forall|i: int| 0 <= i < partition(a).len() ==> entries_same(#[trigger] partition(a)[i], partition(b)[i]),
    decreases a.len(),
{
    if a.len() > 0 {
        lemma_same_fill(a, b);
        lemma_fill_sizes(a);
        lemma_fill_sizes(b);
        let (c1, l1) = fill(a);
        let (c2, l2) = fill(b);
        lemma_partition_determined(l1, l2);
        assert forall|i: int| 0 <= i < partition(a).len() implies entries_same(#[trigger] partition(a)[i], partition(b)[i]) by {
            if i > 0 {
                assert(partition(a)[i] == partition(l1)[i - 1]);
                assert(partition(b)[i] == partition(l2)[i - 1]);
            }
        }
    }
}

/// `f` picks out `sub` from `s`: at increasing positions, item by item.
pub open spec fn embeds(f: Seq<int>, sub: Seq<ResourceEntry>, s: Seq<ResourceEntry>) -> bool {
    &&& f.len() == sub.len()
    &&& forall|i: int| 0 <= i < f.len() ==> 0 <= #[trigger] f[i] < s.len() && s[f[i]] == sub[i]
    &&& forall|i: int, j: int| 0 <= i < j < f.len() ==> #[trigger] f[i] < #[trigger] f[j]
}

/// Whether `sub` is `s` with some items left out, the rest in their order.
pub open spec fn is_subsequence(sub: Seq<ResourceEntry>, s: Seq<ResourceEntry>) -> bool {
    exists|f: Seq<int>| embeds(f, sub, s)
}

proof fn lemma_fill_embeds(es: Seq<ResourceEntry>) -> (r: (Seq<int>, Seq<int>))
    ensures
        embeds(r.0, fill(es).0, es),
        embeds(r.1, fill(es).1, es),
    decreases es.len(),
{
    if es.len() == 0 {
        (Seq::empty(), Seq::empty())
    } else {
        let d = es.drop_last();
        let (fc, fl) = lemma_fill_embeds(d);
        let (c, l) = fill(d);
        let n = es.len() - 1;
        assert forall|i: int| 0 <= i < fc.len() implies es[fc[i]] == c[i] by {
            assert(d[fc[i]] == es[fc[i]]);
        }
        assert forall|i: int| 0 <= i < fl.len() implies es[fl[i]] == l[i] by {
            assert(d[fl[i]] == es[fl[i]]);
        }
        if admits(c, es.last()) {
            let g = fc.push(n);
            assert(embeds(g, c.push(es.last()), es)) by {
                assert forall|i: int| 0 <= i < g.len() implies 0 <= #[trigger] g[i] < es.len() && es[g[i]] == c.push(es.last())[i] by {
                    if i < fc.len() {
                        assert(g[i] == fc[i]);
                    }
                }
                assert forall|i: int, j: int| 0 <= i < j < g.len() implies #[trigger] g[i] < #[trigger] g[j] by {
                    if j < fc.len() {
                        assert(g[i] == fc[i] && g[j] == fc[j]);
                    } else {
                        assert(g[i] == fc[i]);
                    }
                }
            }
            (g, fl)
        } else {
            let g = fl.push(n);
            assert(embeds(g, l.push(es.last()), es)) by {
                assert forall|i: int| 0 <= i < g.len() implies 0 <= #[trigger] g[i] < es.len() && es[g[i]] == l.push(es.last())[i] by {
                    if i < fl.len() {
                        assert(g[i] == fl[i]);
                    }
                }
                assert forall|i: int, j: int| 0 <= i < j < g.len() implies #[trigger] g[i] < #[trigger] g[j] by {
                    if j < fl.len() {
                        assert(g[i] == fl[i] && g[j] == fl[j]);
                    } else {
                        assert(g[i] == fl[i]);
                    }
                }
            }
            (fc, g)
        }
    }
}

proof fn lemma_partition_embeds(es: Seq<ResourceEntry>, i: int) -> (f: Seq<int>)
    requires
        0 <= i < partition(es).len(),
    ensures
        embeds(f, partition(es)[i], es),
    decreases es.len(),
{
    lemma_fill_sizes(es);
    let (fc, fl) = lemma_fill_embeds(es);
    let (c, l) = fill(es);
    if i == 0 {
        fc
    } else {
        assert(partition(es)[i] == partition(l)[i - 1]);
        let g = lemma_partition_embeds(l, i - 1);
        let h = Seq::new(g.len(), |k: int| fl[g[k]]);
        assert forall|k: int| 0 <= k < h.len() implies 0 <= #[trigger] h[k] < es.len() && es[h[k]] == partition(es)[i][k] by {
            assert(0 <= g[k] < l.len());
        }
        assert forall|a: int, b: int| 0 <= a < b < h.len() implies #[trigger] h[a] < #[trigger] h[b] by {
            assert(g[a] < g[b]);
            assert(0 <= g[b] < fl.len());
        }
        h
    }
}

/// Each cabinet keeps the input order: its entries are the input with
/// some entries left out.
pub proof fn lemma_cabinet_keeps_order(es: Seq<ResourceEntry>, i: int)
    requires
        0 <= i < partition(es).len(),
    ensures
        is_subsequence(partition(es)[i], es),
{
    let f = lemma_partition_embeds(es, i);
    assert(embeds(f, partition(es)[i], es));
}

/// Entries that fit one cabinet (at most `CABINET_MAX_FILES` of them, with
/// distinct filenames and at most `CABINET_MAX_SIZE` bytes in all) go into
/// a single cabinet, in input order.
pub proof fn lemma_single_cabinet(es: Seq<ResourceEntry>)
    requires
        0 < es.len() <= CABINET_MAX_FILES,
        filenames_distinct(es),
        total_size(es) <= CABINET_MAX_SIZE,
    ensures
        partition(es) == seq![es],
{
    lemma_fill_in_order(es);
    assert(partition(fill(es).1) =~= Seq::<Seq<ResourceEntry>>::empty());
    assert(partition(es) =~= seq![es]);
}

} // verus!
