//! The configuration model: what a manifest asks for, section by section.

use crate::table::Table;
use crate::text::{copied, texts};
use vstd::prelude::*;
use vstd::string::*;

verus! {

/// Links to make: from a source path to a destination path. Where
/// `recursive` is set, each pair names a directory, and every file below the
/// source is linked to the same place below the destination.
#[derive(Debug, PartialEq)]
pub struct LinkSpec {
    pub recursive: bool,
    pub items: Table<String>,
}

/// What a `LinkSpec` holds.
pub struct LinkModel {
    pub recursive: bool,
    pub items: Seq<(Seq<char>, Seq<char>)>,
}

impl View for LinkSpec {
    type V = LinkModel;

    open spec fn view(&self) -> LinkModel {
        LinkModel { recursive: self.recursive, items: self.items@ }
    }
}

impl Clone for LinkSpec {
    fn clone(&self) -> (r: Self)
        ensures
            r@ == self@,
    {
        LinkSpec { recursive: self.recursive, items: self.items.duplicate() }
    }
}

impl Default for LinkSpec {
    fn default() -> (r: Self)
        ensures
            !r@.recursive,
            r@.items.len() == 0,
    {
        LinkSpec { recursive: false, items: Table::new() }
    }
}

/// PPAs to add.
#[derive(Debug, Clone)]
pub struct PpaSpec {
    pub items: Vec<String>,
}

impl View for PpaSpec {
    type V = Seq<Seq<char>>;

    open spec fn view(&self) -> Seq<Seq<char>> {
        texts(self.items@)
    }
}

impl Default for PpaSpec {
    fn default() -> (r: Self)
        ensures
            r@.len() == 0,
    {
        PpaSpec { items: Vec::new() }
    }
}

/// Packages for whichever package manager the machine has.
#[derive(Debug, Clone)]
pub struct PkgSpec {
    pub items: Vec<String>,
}

impl View for PkgSpec {
    type V = Seq<Seq<char>>;

    open spec fn view(&self) -> Seq<Seq<char>> {
        texts(self.items@)
    }
}

impl Default for PkgSpec {
    fn default() -> (r: Self)
        ensures
            r@.len() == 0,
    {
        PkgSpec { items: Vec::new() }
    }
}

/// Packages for `apt`.
#[derive(Debug, Clone)]
pub struct AptSpec {
    pub items: Vec<String>,
}

impl View for AptSpec {
    type V = Seq<Seq<char>>;

    open spec fn view(&self) -> Seq<Seq<char>> {
        texts(self.items@)
    }
}

impl Default for AptSpec {
    fn default() -> (r: Self)
        ensures
            r@.len() == 0,
    {
        AptSpec { items: Vec::new() }
    }
}

/// Packages for `dnf`.
#[derive(Debug, Clone)]
pub struct DnfSpec {
    pub items: Vec<String>,
}

impl View for DnfSpec {
    type V = Seq<Seq<char>>;

    open spec fn view(&self) -> Seq<Seq<char>> {
        texts(self.items@)
    }
}

impl Default for DnfSpec {
    fn default() -> (r: Self)
        ensures
            r@.len() == 0,
    {
        DnfSpec { items: Vec::new() }
    }
}

/// Global `npm` packages.
#[derive(Debug, Clone)]
pub struct NpmSpec {
    pub items: Vec<String>,
}

impl View for NpmSpec {
    type V = Seq<Seq<char>>;

    open spec fn view(&self) -> Seq<Seq<char>> {
        texts(self.items@)
    }
}

impl Default for NpmSpec {
    fn default() -> (r: Self)
        ensures
            r@.len() == 0,
    {
        NpmSpec { items: Vec::new() }
    }
}

/// Tools to set up with `pipx`.
#[derive(Debug, Clone)]
pub struct PipxSpec {
    pub items: Vec<String>,
}

impl View for PipxSpec {
    type V = Seq<Seq<char>>;

    open spec fn view(&self) -> Seq<Seq<char>> {
        texts(self.items@)
    }
}

impl Default for PipxSpec {
    fn default() -> (r: Self)
        ensures
            r@.len() == 0,
    {
        PipxSpec { items: Vec::new() }
    }
}

/// Flatpak applications.
#[derive(Debug, Clone)]
pub struct FlatpakSpec {
    pub items: Vec<String>,
}

impl View for FlatpakSpec {
    type V = Seq<Seq<char>>;

    open spec fn view(&self) -> Seq<Seq<char>> {
        texts(self.items@)
    }
}

impl Default for FlatpakSpec {
    fn default() -> (r: Self)
        ensures
            r@.len() == 0,
    {
        FlatpakSpec { items: Vec::new() }
    }
}

/// Crates for `cargo install`.
#[derive(Debug, Clone)]
pub struct CargoSpec {
    pub items: Vec<String>,
}

impl View for CargoSpec {
    type V = Seq<Seq<char>>;

    open spec fn view(&self) -> Seq<Seq<char>> {
        texts(self.items@)
    }
}

impl Default for CargoSpec {
    fn default() -> (r: Self)
        ensures
            r@.len() == 0,
    {
        CargoSpec { items: Vec::new() }
    }
}

/// Packages for `pip3`: those to install, and those that are built with
/// distutils, which are installed along with them.
#[derive(Debug, Clone)]
pub struct Pip3Spec {
    pub items: Vec<String>,
    pub distutils: Vec<String>,
}

/// What a `Pip3Spec` holds.
pub struct Pip3Model {
    pub items: Seq<Seq<char>>,
    pub distutils: Seq<Seq<char>>,
}

impl View for Pip3Spec {
    type V = Pip3Model;

    open spec fn view(&self) -> Pip3Model {
        Pip3Model { items: texts(self.items@), distutils: texts(self.distutils@) }
    }
}

impl Default for Pip3Spec {
    fn default() -> (r: Self)
        ensures
            r@.items.len() == 0,
            r@.distutils.len() == 0,
    {
        Pip3Spec { items: Vec::new(), distutils: Vec::new() }
    }
}

/// Shell scripts by name.
#[derive(Debug, PartialEq)]
pub struct ScriptSpec {
    pub items: Table<String>,
}

impl View for ScriptSpec {
    type V = Seq<(Seq<char>, Seq<char>)>;

    open spec fn view(&self) -> Seq<(Seq<char>, Seq<char>)> {
        self.items@
    }
}

impl Clone for ScriptSpec {
    fn clone(&self) -> (r: Self)
        ensures
            r@ == self@,
    {
        ScriptSpec { items: self.items.duplicate() }
    }
}

impl Default for ScriptSpec {
    fn default() -> (r: Self)
        ensures
            r@.len() == 0,
    {
        ScriptSpec { items: Table::new() }
    }
}

/// What to do with one repository once it is cloned: links out of it,
/// directories of it to `cargo install` from, and scripts to run.
#[derive(Debug, PartialEq)]
pub struct RepoSpec {
    pub link: LinkSpec,
    pub cargo: Vec<String>,
    pub script: ScriptSpec,
}

/// What a `RepoSpec` holds.
pub struct RepoModel {
    pub link: LinkModel,
    pub cargo: Seq<Seq<char>>,
    pub script: Seq<(Seq<char>, Seq<char>)>,
}

impl View for RepoSpec {
    type V = RepoModel;

    open spec fn view(&self) -> RepoModel {
        RepoModel { link: self.link@, cargo: texts(self.cargo@), script: self.script@ }
    }
}

impl Clone for RepoSpec {
    fn clone(&self) -> (r: Self)
        ensures
            r@ == self@,
    {
        RepoSpec {
            link: self.link.clone(),
            cargo: copied(&self.cargo),
            script: self.script.clone(),
        }
    }
}

impl Default for RepoSpec {
    fn default() -> (r: Self)
        ensures
            !r@.link.recursive,
            r@.link.items.len() == 0,
            r@.cargo.len() == 0,
            r@.script.len() == 0,
    {
        RepoSpec { link: LinkSpec::default(), cargo: Vec::new(), script: ScriptSpec::default() }
    }
}

/// Repositories by "owner/name", and the directory below the home directory
/// that they are cloned into.
#[derive(Debug, Clone)]
pub struct GithubSpec {
    pub repopath: String,
    pub items: Table<RepoSpec>,
}

/// What a `GithubSpec` holds.
pub struct GithubModel {
    pub repopath: Seq<char>,
    pub items: Seq<(Seq<char>, RepoModel)>,
}

impl View for GithubSpec {
    type V = GithubModel;

    open spec fn view(&self) -> GithubModel {
        GithubModel { repopath: self.repopath@, items: self.items@ }
    }
}

impl Default for GithubSpec {
    fn default() -> (r: Self)
        ensures
            r@.repopath.len() == 0,
            r@.items.len() == 0,
    {
        GithubSpec { repopath: String::new(), items: Table::new() }
    }
}

/// The directory that repositories are cloned into where a manifest names
/// none.
pub fn default_repopath() -> (r: String)
    ensures
        r@ == "repos"@,
{
    "repos".to_string()
}

/// A whole manifest.
#[derive(Debug, Clone)]
pub struct ManifestSpec {
    pub verbose: bool,
    pub errors: bool,
    pub link: LinkSpec,
    pub ppa: PpaSpec,
    pub pkg: PkgSpec,
    pub apt: AptSpec,
    pub dnf: DnfSpec,
    pub npm: NpmSpec,
    pub pip3: Pip3Spec,
    pub pipx: PipxSpec,
    pub flatpak: FlatpakSpec,
    pub cargo: CargoSpec,
    pub github: GithubSpec,
    pub git_crypt: GithubSpec,
    pub script: ScriptSpec,
}

/// What a `ManifestSpec` holds.
pub struct ManifestModel {
    pub verbose: bool,
    pub errors: bool,
    pub link: LinkModel,
    pub ppa: Seq<Seq<char>>,
    pub pkg: Seq<Seq<char>>,
    pub apt: Seq<Seq<char>>,
    pub dnf: Seq<Seq<char>>,
    pub npm: Seq<Seq<char>>,
    pub pip3: Pip3Model,
    pub pipx: Seq<Seq<char>>,
    pub flatpak: Seq<Seq<char>>,
    pub cargo: Seq<Seq<char>>,
    pub github: GithubModel,
    pub git_crypt: GithubModel,
    pub script: Seq<(Seq<char>, Seq<char>)>,
}

impl View for ManifestSpec {
    type V = ManifestModel;

    open spec fn view(&self) -> ManifestModel {
        ManifestModel {
            verbose: self.verbose,
            errors: self.errors,
            link: self.link@,
            ppa: self.ppa@,
            pkg: self.pkg@,
            apt: self.apt@,
            dnf: self.dnf@,
            npm: self.npm@,
            pip3: self.pip3@,
            pipx: self.pipx@,
            flatpak: self.flatpak@,
            cargo: self.cargo@,
            github: self.github@,
            git_crypt: self.git_crypt@,
            script: self.script@,
        }
    }
}

/// A manifest that asks for nothing.
pub open spec fn is_empty_manifest(m: ManifestModel) -> bool {
    &&& !m.verbose
    &&& !m.errors
    &&& !m.link.recursive
    &&& m.link.items.len() == 0
    &&& m.ppa.len() == 0
    &&& m.pkg.len() == 0
    &&& m.apt.len() == 0
    &&& m.dnf.len() == 0
    &&& m.npm.len() == 0
    &&& m.pip3.items.len() == 0
    &&& m.pip3.distutils.len() == 0
    &&& m.pipx.len() == 0
    &&& m.flatpak.len() == 0
    &&& m.cargo.len() == 0
    &&& m.github.repopath.len() == 0
    &&& m.github.items.len() == 0
    &&& m.git_crypt.repopath.len() == 0
    &&& m.git_crypt.items.len() == 0
    &&& m.script.len() == 0
}

impl Default for ManifestSpec {
    fn default() -> (r: Self)
        ensures
            is_empty_manifest(r@),
    {
        ManifestSpec {
            verbose: false,
            errors: false,
            link: LinkSpec::default(),
            ppa: PpaSpec::default(),
            pkg: PkgSpec::default(),
            apt: AptSpec::default(),
            dnf: DnfSpec::default(),
            npm: NpmSpec::default(),
            pip3: Pip3Spec::default(),
            pipx: PipxSpec::default(),
            flatpak: FlatpakSpec::default(),
            cargo: CargoSpec::default(),
            github: GithubSpec::default(),
            git_crypt: GithubSpec::default(),
            script: ScriptSpec::default(),
        }
    }
}

} // verus!
