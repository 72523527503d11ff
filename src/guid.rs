//! Deterministic, content-seeded identifiers: the product code is derived
//! from the bundle identifier, and each component's identifier from the
//! product code and the names of the files it installs.
use vstd::prelude::*;
use crate::text::{join, join_strings, lemma_sort_ignores_order, sort_strings, sorted_strings};

verus! {

/// A 128-bit globally unique identifier, as its 16 bytes in RFC 9562 order.
#[derive(Clone, Copy, Debug)]
pub struct Guid {
    pub bytes: [u8; 16],
}

/// The version-5 (SHA-1, name-based) UUID of the UTF-8 encoding of `name`
/// in `namespace`.
pub uninterp spec fn uuid_v5(namespace: Seq<u8>, name: Seq<char>) -> Seq<u8>;

/// Relies on `uuid::Uuid::new_v5`: the name-based UUID of `name`'s UTF-8
/// bytes in `namespace`, which depends on its arguments alone.
#[verifier::external_body]
fn new_v5(namespace: &Guid, name: &str) -> (r: Guid)
    ensures
        r.bytes@ == uuid_v5(namespace.bytes@, name@),
{
    let ns = uuid::Uuid::from_bytes(namespace.bytes);
    Guid { bytes: uuid::Uuid::new_v5(&ns, name.as_bytes()).into_bytes() }
}

/// The namespace in which product codes are derived from bundle identifiers.
pub open spec fn namespace_bytes() -> Seq<u8> {
    seq![
        0xfdu8, 0x85u8, 0x95u8, 0xa8u8, 0x17u8, 0xa3u8, 0x47u8, 0x4eu8,
        0xa6u8, 0x16u8, 0x76u8, 0x14u8, 0x8du8, 0xfau8, 0x0cu8, 0x7bu8,
    ]
}

/// The product code of a package whose bundle identifier is `identifier`.
pub open spec fn spec_package_guid(identifier: Seq<char>) -> Seq<u8> {
    uuid_v5(namespace_bytes(), identifier)
}

/// The identifier of a component of the package with product code `package`
/// that installs the files named `files`: seeded by their names in sorted
/// order, joined with `/`.
pub open spec fn spec_component_guid(package: Seq<u8>, files: Seq<Seq<char>>) -> Seq<u8> {
    uuid_v5(package, join(sorted_strings(files), "/"@))
}

/// The namespace in which product codes are derived.
pub fn uuid_namespace() -> (r: Guid)
    ensures
        r.bytes@ == namespace_bytes(),
{
    let bytes: [u8; 16] = [
        0xfd, 0x85, 0x95, 0xa8, 0x17, 0xa3, 0x47, 0x4e,
        0xa6, 0x16, 0x76, 0x14, 0x8d, 0xfa, 0x0c, 0x7b,
    ];
    let r = Guid { bytes };
    assert(r.bytes@ =~= namespace_bytes());
    r
}

/// Derives the package's product code from its bundle identifier, so that
/// rebuilding the same product keeps the same code.
pub fn generate_package_guid(bundle_identifier: &str) -> (r: Guid)
    ensures
        r.bytes@ == spec_package_guid(bundle_identifier@),
{
    let ns = uuid_namespace();
    new_v5(&ns, bundle_identifier)
}

/// Derives a component's identifier from the product code and the sorted
/// names of the files the component installs, joined with `/`; it changes
/// exactly when that set of names changes.
pub fn generate_component_guid(package_guid: &Guid, files: &Vec<String>) -> (r: Guid)
    ensures
        r.bytes@ == spec_component_guid(package_guid.bytes@, files.deep_view()),
{
    let sorted = sort_strings(files);
    let seed = join_strings(&sorted, "/");
    new_v5(package_guid, seed.as_str())
}

/// Deriving is deterministic: equal seeds give equal product codes and, for
/// equal product codes, equal component identifiers.
pub proof fn lemma_guid_deterministic(
    id1: Seq<char>,
    id2: Seq<char>,
    files1: Seq<Seq<char>>,
    files2: Seq<Seq<char>>,
)
    requires
        id1 == id2,
        files1 == files2,
    ensures
        spec_package_guid(id1) == spec_package_guid(id2),
        spec_component_guid(spec_package_guid(id1), files1) == spec_component_guid(
            spec_package_guid(id2),
            files2,
        ),
{
}

/// A component's identifier depends on the set of its file names, not on
/// their order: file lists holding the same names, each as often, give the
/// same identifier.
pub proof fn lemma_component_guid_ignores_order(package: Seq<u8>, files1: Seq<Seq<char>>, files2: Seq<Seq<char>>)
    requires
        files1.to_multiset() == files2.to_multiset(),
    ensures
        spec_component_guid(package, files1) == spec_component_guid(package, files2),
{
    lemma_sort_ignores_order(files1, files2);
}

} // verus!
