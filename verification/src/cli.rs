//! What the operator asked for on the command line, and which package
//! manager the run is for.

use crate::text::texts;
use vstd::prelude::*;
use vstd::string::*;

verus! {

/// The parsed command line. Each section has a list of patterns: empty where
/// the section's flag was not given, the wildcard `*` alone where it was
/// given without a value.
#[derive(Debug, Clone)]
pub struct Cli {
    pub config: String,
    pub home: String,
    pub pkgmgr: String,
    pub link: Vec<String>,
    pub ppa: Vec<String>,
    pub apt: Vec<String>,
    pub dnf: Vec<String>,
    pub npm: Vec<String>,
    pub pip3: Vec<String>,
    pub pipx: Vec<String>,
    pub flatpak: Vec<String>,
    pub cargo: Vec<String>,
    pub github: Vec<String>,
    pub git_crypt: Vec<String>,
    pub script: Vec<String>,
    pub path: String,
}

/// What a `Cli` holds.
pub struct CliModel {
    pub config: Seq<char>,
    pub home: Seq<char>,
    pub pkgmgr: Seq<char>,
    pub link: Seq<Seq<char>>,
    pub ppa: Seq<Seq<char>>,
    pub apt: Seq<Seq<char>>,
    pub dnf: Seq<Seq<char>>,
    pub npm: Seq<Seq<char>>,
    pub pip3: Seq<Seq<char>>,
    pub pipx: Seq<Seq<char>>,
    pub flatpak: Seq<Seq<char>>,
    pub cargo: Seq<Seq<char>>,
    pub github: Seq<Seq<char>>,
    pub git_crypt: Seq<Seq<char>>,
    pub script: Seq<Seq<char>>,
    pub path: Seq<char>,
}

impl View for Cli {
    type V = CliModel;

    open spec fn view(&self) -> CliModel {
        CliModel {
            config: self.config@,
            home: self.home@,
            pkgmgr: self.pkgmgr@,
            link: texts(self.link@),
            ppa: texts(self.ppa@),
            apt: texts(self.apt@),
            dnf: texts(self.dnf@),
            npm: texts(self.npm@),
            pip3: texts(self.pip3@),
            pipx: texts(self.pipx@),
            flatpak: texts(self.flatpak@),
            cargo: texts(self.cargo@),
            github: texts(self.github@),
            git_crypt: texts(self.git_crypt@),
            script: texts(self.script@),
            path: self.path@,
        }
    }
}

/// Whether the flag of any section was given.
pub open spec fn any_specified(c: CliModel) -> bool {
    ||| c.link.len() > 0
    ||| c.ppa.len() > 0
    ||| c.apt.len() > 0
    ||| c.dnf.len() > 0
    ||| c.npm.len() > 0
    ||| c.pip3.len() > 0
    ||| c.pipx.len() > 0
    ||| c.flatpak.len() > 0
    ||| c.cargo.len() > 0
    ||| c.github.len() > 0
    ||| c.git_crypt.len() > 0
    ||| c.script.len() > 0
}

impl Cli {
    /// Whether the flag of any section was given. If none was, the run is for
    /// the complete manifest; if one was, for the named sections only.
    pub fn any_section_specified(&self) -> (r: bool)
        ensures
            r == any_specified(self@),
    {
        !self.link.is_empty() || !self.ppa.is_empty() || !self.apt.is_empty()
            || !self.dnf.is_empty() || !self.npm.is_empty() || !self.pip3.is_empty()
            || !self.pipx.is_empty() || !self.flatpak.is_empty() || !self.cargo.is_empty()
            || !self.github.is_empty() || !self.git_crypt.is_empty() || !self.script.is_empty()
    }
}

/// The package manager that the machine's tools point to: `deb` where
/// `dpkg` is there, else `rpm` where `rpm` is, else `brew` where `brew` is.
pub open spec fn detected(has_dpkg: bool, has_rpm: bool, has_brew: bool) -> Option<Seq<char>> {
    if has_dpkg {
        Some("deb"@)
    } else if has_rpm {
        Some("rpm"@)
    } else if has_brew {
        Some("brew"@)
    } else {
        None
    }
}

/// The package manager of the machine, from which of the three tools were
/// found on it; `None` where none was, and the run cannot go on without the
/// operator naming one.
pub fn get_pkgmgr(has_dpkg: bool, has_rpm: bool, has_brew: bool) -> (r: Option<String>)
    ensures
        r is Some <==> detected(has_dpkg, has_rpm, has_brew) is Some,
        r matches Some(name) ==> detected(has_dpkg, has_rpm, has_brew) == Some(name@),
{
    if has_dpkg {
        Some("deb".to_string())
    } else if has_rpm {
        Some("rpm".to_string())
    } else if has_brew {
        Some("brew".to_string())
    } else {
        None
    }
}

/// The package manager that the run is for: the one that the operator
/// named, or else the one detected.
pub open spec fn resolved(
    given: Seq<char>,
    has_dpkg: bool,
    has_rpm: bool,
    has_brew: bool,
) -> Option<Seq<char>> {
    if given.len() > 0 {
        Some(given)
    } else {
        detected(has_dpkg, has_rpm, has_brew)
    }
}

/// The package manager that the run is for; `None` where the operator named
/// none and none was detected.
pub fn resolve_pkgmgr(given: &str, has_dpkg: bool, has_rpm: bool, has_brew: bool) -> (r: Option<
    String,
>)
    ensures
        r is Some <==> resolved(given@, has_dpkg, has_rpm, has_brew) is Some,
        r matches Some(name) ==> resolved(given@, has_dpkg, has_rpm, has_brew) == Some(name@),
{
    if !given.is_empty() {
        Some(given.to_string())
    } else {
        get_pkgmgr(has_dpkg, has_rpm, has_brew)
    }
}

} // verus!
