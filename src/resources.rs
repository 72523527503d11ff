//! The files that a package installs: the application binary first, then
//! every resource file, each with its relative install path and size.
use vstd::prelude::*;
use crate::path::{relpath_segments, resource_relpath_segments};

verus! {

/// A file to be installed, with where it comes from and where it goes.
#[derive(Debug)]
pub struct ResourceEntry {
    /// The existing file whose bytes are installed.
    pub source_path: String,
    /// The install path relative to the install directory, as segments; the
    /// last segment is the file's name.
    pub dest_path: Vec<String>,
    /// The file's name on disk, also the key of its File row.
    pub filename: String,
    /// The file's size in bytes.
    pub size: u64,
    /// The key of the Component (and Directory) the file is installed with;
    /// empty until the directory tree has been built.
    pub component_key: String,
}

/// The install path, as segments, of a resource file found at `path`.
pub open spec fn resource_dest(path: Seq<char>) -> Seq<Seq<char>> {
    seq!["Resources"@] + relpath_segments(path)
}

/// The directory part of an install path.
pub open spec fn dest_dir(dest: Seq<Seq<char>>) -> Seq<Seq<char>> {
    if dest.len() == 0 {
        dest
    } else {
        dest.drop_last()
    }
}

/// The entry that `collect_resource_info` makes for a resource file.
pub open spec fn is_resource_entry(e: ResourceEntry, path: Seq<char>, size: u64) -> bool {
    &&& e.source_path@ == path
    &&& e.dest_path.deep_view() == resource_dest(path)
    &&& e.filename@ == resource_dest(path).last()
    &&& e.size == size
    &&& e.component_key@ == Seq::<char>::empty()
}

/// The entry that `collect_resource_info` makes for the application binary.
pub open spec fn is_binary_entry(e: ResourceEntry, path: Seq<char>, name: Seq<char>, size: u64) -> bool {
    &&& e.source_path@ == path
    &&& e.dest_path.deep_view() == seq![name]
    &&& e.filename@ == name
    &&& e.size == size
    &&& e.component_key@ == Seq::<char>::empty()
}

/// Lists the binary and every resource file as install entries, the binary
/// first and installed directly in the install directory, each resource
/// under `Resources/` at its rewritten relative path.  Sizes are given by
/// the caller, which has read them from the file system.
pub fn collect_resource_info(
    binary_path: &str,
    binary_name: &str,
    binary_size: u64,
    resource_files: &Vec<(String, u64)>,
) -> (r: Vec<ResourceEntry>)
    ensures
        r@.len() == resource_files@.len() + 1,
        is_binary_entry(r@[0], binary_path@, binary_name@, binary_size),
        forall|i: int|
            0 <= i < resource_files@.len() ==> is_resource_entry(
                #[trigger] r@[i + 1],
                resource_files@[i].0@,
                resource_files@[i].1,
            ),
{
    let mut out: Vec<ResourceEntry> = Vec::new();
    out.push(
        ResourceEntry {
            source_path: String::from_str(binary_path),
            dest_path: vec![String::from_str(binary_name)],
            filename: String::from_str(binary_name),
            size: binary_size,
            component_key: String::new(),
        },
    );
    assert(out@[0].dest_path.deep_view() =~= seq![binary_name@]);
    let mut i: usize = 0;
    while i < resource_files.len()
        invariant
            i <= resource_files@.len(),
            out@.len() == i + 1,
            is_binary_entry(out@[0], binary_path@, binary_name@, binary_size),
            forall|k: int|
                0 <= k < i ==> is_resource_entry(
                    #[trigger] out@[k + 1],
                    resource_files@[k].0@,
                    resource_files@[k].1,
                ),
        decreases resource_files@.len() - i,
    {
        let source = resource_files[i].0.as_str();
        let rel = resource_relpath_segments(source);
        let mut dest: Vec<String> = vec![String::from_str("Resources")];
        let mut j: usize = 0;
        while j < rel.len()
            invariant
                j <= rel@.len(),
                dest.deep_view() == seq!["Resources"@] + rel.deep_view().subrange(0, j as int),
            decreases rel@.len() - j,
        {
            let seg = rel[j].clone();
            assert(seg@ == rel.deep_view()[j as int]);
            let ghost before = dest.deep_view();
            dest.push(seg);
            assert(dest.deep_view() =~= before.push(seg@));
            assert(dest.deep_view() =~= seq!["Resources"@] + rel.deep_view().subrange(0, j + 1));
            j = j + 1;
        }
        assert(rel.deep_view().subrange(0, rel@.len() as int) =~= rel.deep_view());
        let filename = dest[dest.len() - 1].clone();
        out.push(
            ResourceEntry {
                source_path: String::from_str(source),
                dest_path: dest,
                filename,
                size: resource_files[i].1,
                component_key: String::new(),
            },
        );
        i = i + 1;
    }
    out
}

/// `a` and `b` hold the same values field by field.
pub open spec fn entry_same(a: ResourceEntry, b: ResourceEntry) -> bool {
    &&& a.source_path@ == b.source_path@
    &&& a.dest_path.deep_view() == b.dest_path.deep_view()
    &&& a.filename@ == b.filename@
    &&& a.size == b.size
    &&& a.component_key@ == b.component_key@
}

/// `a` and `b` hold the same entries, position by position.
pub open spec fn entries_same(a: Seq<ResourceEntry>, b: Seq<ResourceEntry>) -> bool {
    &&& a.len() == b.len()
    &&& forall|i: int| 0 <= i < a.len() ==> entry_same(#[trigger] a[i], b[i])
}

} // verus!
