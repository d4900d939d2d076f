//! The kinds of dependencies, package managers and upgrades.

use vstd::prelude::*;

verus! {

/// The section of `package.json` a dependency is declared in.
#[derive(Clone, Copy, Debug, PartialEq, Eq, Structural)]
pub enum DependencyType {
    Normal,
    Dev,
    Peer,
    Optional,
}

/// The title of a section in the report.
pub open spec fn dependency_title(d: DependencyType) -> Seq<char> {
    match d {
        DependencyType::Normal => "Normal Dependencies"@,
        DependencyType::Dev => "Development Dependencies"@,
        DependencyType::Peer => "Peer Dependencies"@,
        DependencyType::Optional => "Optional Dependencies"@,
    }
}

impl DependencyType {
    /// The section's title, as the report shows it.
    pub fn to_text(&self) -> (r: String)
        ensures
            r@ == dependency_title(*self),
    {
        match self {
            DependencyType::Normal => "Normal Dependencies".to_owned(),
            DependencyType::Dev => "Development Dependencies".to_owned(),
            DependencyType::Peer => "Peer Dependencies".to_owned(),
            DependencyType::Optional => "Optional Dependencies".to_owned(),
        }
    }
}

/// The package manager that installs upgrades.
#[derive(Clone, Copy, Debug, PartialEq, Eq, Structural)]
pub enum PackageManagerType {
    Npm,
    Yarn,
    Pnpm,
}

/// The command that runs a package manager.
pub open spec fn manager_command(m: PackageManagerType) -> Seq<char> {
    match m {
        PackageManagerType::Npm => "npm"@,
        PackageManagerType::Yarn => "yarn"@,
        PackageManagerType::Pnpm => "pnpm"@,
    }
}

impl PackageManagerType {
    /// The command that runs the package manager.
    pub fn to_text(&self) -> (r: String)
        ensures
            r@ == manager_command(*self),
    {
        match self {
            PackageManagerType::Npm => "npm".to_owned(),
            PackageManagerType::Yarn => "yarn".to_owned(),
            PackageManagerType::Pnpm => "pnpm".to_owned(),
        }
    }
}

/// How far an upgrade may go.
#[derive(Clone, Copy, Debug, PartialEq, Eq, Structural)]
pub enum UpgradeType {
    /// To the newest version with the declared major.
    Major,
    /// To the newest version with the declared major and minor.
    Minor,
    /// To the newest version.
    Latest,
}

} // verus!
