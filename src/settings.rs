//! The kinds of bundle this tool can produce, and which build artifact is
//! being bundled.
use vstd::prelude::*;
use crate::text::str_eq;

verus! {

/// A kind of platform-native package.
#[derive(Clone, Copy, Debug, PartialEq, Eq, Structural)]
pub enum PackageType {
    OsxBundle,
    IosBundle,
    WindowsMsi,
    Deb,
    Rpm,
    AppImage,
}

/// Which compiled artifact of the project is being bundled.
#[derive(Clone, Debug)]
pub enum BuildArtifact {
    Main,
    Bin(String),
    Example(String),
}

/// The short name by which a package type is selected.
pub open spec fn spec_short_name(t: PackageType) -> Seq<char> {
    match t {
        PackageType::Deb => "deb"@,
        PackageType::IosBundle => "ios"@,
        PackageType::WindowsMsi => "msi"@,
        PackageType::OsxBundle => "osx"@,
        PackageType::Rpm => "rpm"@,
        PackageType::AppImage => "appimage"@,
    }
}

/// The short names of all package types, in the order in which they are
/// listed to users.
pub open spec fn spec_all_short_names() -> Seq<Seq<char>> {
    seq!["deb"@, "ios"@, "msi"@, "osx"@, "rpm"@, "appimage"@]
}

impl PackageType {
    /// The package type whose short name is `name`, if any.
    pub fn from_short_name(name: &str) -> (r: Option<PackageType>)
        ensures
            match r {
                Some(t) => spec_short_name(t) == name@,
                None => forall|t: PackageType| spec_short_name(t) != name@,
            },
    {
        if str_eq(name, "deb") {
            Some(PackageType::Deb)
        } else if str_eq(name, "ios") {
            Some(PackageType::IosBundle)
        } else if str_eq(name, "msi") {
            Some(PackageType::WindowsMsi)
        } else if str_eq(name, "osx") {
            Some(PackageType::OsxBundle)
        } else if str_eq(name, "rpm") {
            Some(PackageType::Rpm)
        } else if str_eq(name, "appimage") {
            Some(PackageType::AppImage)
        } else {
            None
        }
    }

    /// The short name by which this package type is selected.
    pub fn short_name(&self) -> (r: &'static str)
        ensures
            r@ == spec_short_name(*self),
    {
        match *self {
            PackageType::Deb => "deb",
            PackageType::IosBundle => "ios",
            PackageType::WindowsMsi => "msi",
            PackageType::OsxBundle => "osx",
            PackageType::Rpm => "rpm",
            PackageType::AppImage => "appimage",
        }
    }

    /// The short names of every supported package type.
    pub fn all() -> (r: Vec<&'static str>)
        ensures
            r@.len() == 6,
            forall|i: int| 0 <= i < 6 ==> #[trigger] r@[i]@ == spec_all_short_names()[i],
    {
        vec!["deb", "ios", "msi", "osx", "rpm", "appimage"]
    }
}

/// Every package type's short name selects that package type again, and the
/// short names are exactly those listed by `all`.
pub proof fn lemma_short_name_round_trip(t: PackageType, u: PackageType)
    ensures
        spec_short_name(t) == spec_short_name(u) ==> t == u,
        spec_all_short_names().contains(spec_short_name(t)),
{
    reveal_strlit("deb");
    reveal_strlit("ios");
    reveal_strlit("msi");
    reveal_strlit("osx");
    reveal_strlit("rpm");
    reveal_strlit("appimage");
    let names = spec_all_short_names();
    let k: int = match t {
        PackageType::Deb => 0,
        PackageType::IosBundle => 1,
        PackageType::WindowsMsi => 2,
        PackageType::OsxBundle => 3,
        PackageType::Rpm => 4,
        PackageType::AppImage => 5,
    };
    assert(names[k] == spec_short_name(t));
    if spec_short_name(t) == spec_short_name(u) && t != u {
        assert(spec_short_name(t)[1] != spec_short_name(u)[1] || spec_short_name(t)[0] != spec_short_name(u)[0]
            || spec_short_name(t).len() != spec_short_name(u).len());
    }
}

} // verus!
