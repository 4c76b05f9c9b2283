//! Sections of a manifest and the shell text that each one becomes, and the
//! assembly of a whole script out of sections.

use crate::config::{LinkModel, LinkSpec, RepoModel, RepoSpec};
use crate::path::{repo_file, repo_file_path};
use crate::table::{model, Table};
use crate::text::{
    contains_text, is_blank, is_whitespace, join, join_strings, lemma_join_step, occurs_at,
    starts_with, str_is_blank, texts,
};
use vstd::prelude::*;
use vstd::string::*;

verus! {

/// The shell function that makes one link. Sections that make links need it
/// in the script.
pub const LINKER: &'static str = "linker() {
    file=\"$(realpath \"$1\")\"
    link=\"${2/#\\~/$HOME}\"
    if [ -L \"$link\" ] && [ \"$(readlink \"$link\")\" = \"$file\" ]; then
        echo \"[exists] $link\"
        return 0
    fi
    if [ -e \"$link\" ] || [ -L \"$link\" ]; then
        echo \"[backup] $link -> $link.orig\"
        mv \"$link\" \"$link.orig\"
    fi
    echo \"[create] $link -> $file\"
    mkdir -p \"$(dirname \"$link\")\"
    ln -s \"$file\" \"$link\"
}
";

/// The shell function that fetches the newest release of a project. Sections
/// of scripts need it in the script.
pub const LATEST: &'static str = "latest() {
    pattern=\"$1\"
    releases=\"$2\"
    name=\"$3\"
    assets=\"$(curl -sL \"$releases\" | jq -r '.assets[].browser_download_url')\"
    url=\"$(echo \"$assets\" | grep -E \"$pattern\" | head -n 1)\"
    if [ -z \"$url\" ]; then
        echo \"no release of $name matches $pattern\"
        return 1
    fi
    tmp=\"$(mktemp -d)\"
    echo \"[fetch] $url\"
    curl -sL \"$url\" -o \"$tmp/$name\"
    chmod +x \"$tmp/$name\"
    mkdir -p \"$HOME/bin\"
    mv \"$tmp/$name\" \"$HOME/bin/$name\"
    rm -rf \"$tmp\"
}
";

/// How every script begins: the interpreter line, where the script comes
/// from, and tracing for whoever sets `DEBUG`.
pub const PREAMBLE: &'static str = "#!/bin/bash
# generated file by manifest
# src: https://github.com/scottidler/manifest

if [ -n \"$DEBUG\" ]; then
    PS4=':${LINENO}+'
    set -x
fi

";

/// What a section of encrypted repositories checks before it touches any of
/// them: that `git-crypt` is installed and that the passphrase is set.
pub const GITCRYPT_GUARD: &'static str = "if ! hash git-crypt >/dev/null 2>&1; then
  echo \"Error: git-crypt not found. Install with: apt install git-crypt\"
  exit 1
fi

if [[ -z \"${GIT_CRYPT_PASSWORD}\" ]]; then
  echo \"Error: GIT_CRYPT_PASSWORD environment variable not set\"
  echo \"Set it with: export GIT_CRYPT_PASSWORD='your-passphrase'\"
  exit 1
fi

";

/// What a section of links begins with.
pub const LINK_HEADER: &'static str = "echo \"links:\"";

/// The command of a section of links.
pub const LINK_BLOCK: &'static str = "linker $file $link";

/// What a section of PPAs begins with.
pub const PPA_HEADER: &'static str = "echo \"ppas:\"";

/// The command of a section of PPAs.
pub const PPA_BLOCK: &'static str = "ppas=$(somecheck)
if [[ $ppas != *\"$pkg\"* ]]; then
  sudo add-apt-repository -y \"ppa:$pkg\"
fi";

/// What a section of `apt` packages begins with.
pub const APT_HEADER: &'static str = "echo \"apts:\"
sudo apt update && sudo apt upgrade -y && sudo apt install -y software-properties-common";

/// The command of a section of `apt` packages.
pub const APT_BLOCK: &'static str = "sudo apt install -y";

/// What a section of `dnf` packages begins with.
pub const DNF_HEADER: &'static str = "echo \"dnf packages:\"";

/// The command of a section of `dnf` packages.
pub const DNF_BLOCK: &'static str = "sudo dnf install -y";

/// What a section of `npm` packages begins with.
pub const NPM_HEADER: &'static str = "echo \"npm packages:\"";

/// The command of a section of `npm` packages.
pub const NPM_BLOCK: &'static str = "sudo npm install -g";

/// What a section of `pip3` packages begins with.
pub const PIP3_HEADER: &'static str = "echo \"pip3 packages:\"
sudo apt-get install -y python3-dev
sudo -H pip3 install --upgrade pip setuptools";

/// The command of a section of `pip3` packages.
pub const PIP3_BLOCK: &'static str = "sudo -H pip3 install --upgrade";

/// What a section of `pipx` tools begins with.
pub const PIPX_HEADER: &'static str = "echo \"pipx:\"";

/// The command of a section of `pipx` tools.
pub const PIPX_BLOCK: &'static str = "pipx install \"$pkg\"";

/// What a section of flatpaks begins with.
pub const FLATPAK_HEADER: &'static str = "echo \"flatpaks:\"";

/// The command of a section of flatpaks.
pub const FLATPAK_BLOCK: &'static str = "flatpak install --assumeyes --or-update";

/// What a section of crates begins with.
pub const CARGO_HEADER: &'static str = "echo \"cargo crates:\"";

/// The command of a section of crates.
pub const CARGO_BLOCK: &'static str = "cargo install";

/// The heading of a section of repositories.
pub const GITHUB_HEADING: &'static str = "\necho \"github repos:\"\n";

/// The heading of a section of encrypted repositories.
pub const GITCRYPT_HEADING: &'static str = "\necho \"git-crypt repos:\"\n";

/// One section of a manifest with its payload, filtered and in order.
#[derive(Debug)]
pub enum ManifestType {
    Link(Vec<String>),
    Ppa(Vec<String>),
    Apt(Vec<String>),
    Dnf(Vec<String>),
    Npm(Vec<String>),
    Pip3(Vec<String>),
    Pipx(Vec<String>),
    Flatpak(Vec<String>),
    Cargo(Vec<String>),
    Github(Table<RepoSpec>, String),
    GitCrypt(Table<RepoSpec>, String),
    Script(Table<String>),
}

/// What a section holds.
pub enum Section {
    Link(Seq<Seq<char>>),
    Ppa(Seq<Seq<char>>),
    Apt(Seq<Seq<char>>),
    Dnf(Seq<Seq<char>>),
    Npm(Seq<Seq<char>>),
    Pip3(Seq<Seq<char>>),
    Pipx(Seq<Seq<char>>),
    Flatpak(Seq<Seq<char>>),
    Cargo(Seq<Seq<char>>),
    Github(Seq<(Seq<char>, RepoModel)>, Seq<char>),
    GitCrypt(Seq<(Seq<char>, RepoModel)>, Seq<char>),
    Script(Seq<(Seq<char>, Seq<char>)>),
}

impl View for ManifestType {
    type V = Section;

    open spec fn view(&self) -> Section {
        match self {
            ManifestType::Link(items) => Section::Link(texts(items@)),
            ManifestType::Ppa(items) => Section::Ppa(texts(items@)),
            ManifestType::Apt(items) => Section::Apt(texts(items@)),
            ManifestType::Dnf(items) => Section::Dnf(texts(items@)),
            ManifestType::Npm(items) => Section::Npm(texts(items@)),
            ManifestType::Pip3(items) => Section::Pip3(texts(items@)),
            ManifestType::Pipx(items) => Section::Pipx(texts(items@)),
            ManifestType::Flatpak(items) => Section::Flatpak(texts(items@)),
            ManifestType::Cargo(items) => Section::Cargo(texts(items@)),
            ManifestType::Github(repos, repopath) => Section::Github(repos@, repopath@),
            ManifestType::GitCrypt(repos, repopath) => Section::GitCrypt(repos@, repopath@),
            ManifestType::Script(scripts) => Section::Script(scripts@),
        }
    }
}

/// The sections as what they hold.
pub open spec fn sections_of(sections: Seq<ManifestType>) -> Seq<Section> {
    sections.map_values(|s: ManifestType| s@)
}

/// The parts put one after another.
pub open spec fn concat(parts: Seq<Seq<char>>) -> Seq<char>
    decreases parts.len(),
{
    if parts.len() == 0 {
        Seq::empty()
    } else {
        concat(parts.drop_last()) + parts.last()
    }
}

/// A loop that reads the lines of `items` one by one, as `file` and `link`,
/// and runs `block` on each; under `header`, if there is one.
pub open spec fn heredoc_text(header: Seq<char>, block: Seq<char>, items: Seq<Seq<char>>) -> Seq<
    char,
> {
    let body = "while read -r file link; do\n    "@ + block + "\ndone<<EOM\n"@ + join(
        items,
        "\n"@,
    ) + "\nEOM\n"@;
    if header.len() == 0 {
        body
    } else {
        "\n"@ + header + "\n"@ + body
    }
}

/// One command, `block`, with the items as its arguments, one to a line and
/// each line but the last continued; under `header`.
pub open spec fn continue_text(header: Seq<char>, block: Seq<char>, items: Seq<Seq<char>>) -> Seq<
    char,
> {
    "\n"@ + header + "\n"@ + block + " "@ + join(items, " \\\n    "@) + "\n"@
}

/// Installing from one directory of a repository.
pub open spec fn cargo_step(repo_path: Seq<char>, rel: Seq<char>) -> Seq<char> {
    let dir = repo_path + "/"@ + rel;
    "echo \"Installing from "@ + dir + "\"\n"@ + "(cd "@ + dir + " && cargo install --path .)\n"@
}

/// The steps for each of `paths`, in order.
pub open spec fn cargo_steps(repo_path: Seq<char>, paths: Seq<Seq<char>>) -> Seq<Seq<char>> {
    Seq::new(paths.len(), |i: int| cargo_step(repo_path, paths[i]))
}

/// Installing from the given directories of a repository; nothing where
/// there are none.
pub open spec fn cargo_install_text(repo_path: Seq<char>, paths: Seq<Seq<char>>) -> Seq<char> {
    if paths.len() == 0 {
        Seq::empty()
    } else {
        "echo \"cargo install (path):\"\n"@ + concat(cargo_steps(repo_path, paths))
    }
}

/// The lines that link files of a repository: the file's path below the
/// repository, a blank and the destination.
pub open spec fn repo_link_lines(repo_path: Seq<char>, items: Seq<(Seq<char>, Seq<char>)>) -> Seq<
    Seq<char>,
> {
    Seq::new(items.len(), |i: int| repo_file(repo_path, items[i].0) + " "@ + items[i].1)
}

/// Linking files of a repository; nothing where the repository asks for no
/// links.
pub open spec fn repo_links_text(repo_path: Seq<char>, link: LinkModel) -> Seq<char> {
    if link.items.len() == 0 && !link.recursive {
        Seq::empty()
    } else {
        LINK_HEADER@ + "\n"@ + heredoc_text(
            Seq::empty(),
            LINK_BLOCK@,
            repo_link_lines(repo_path, link.items),
        )
    }
}

/// One script: its name announced, then its body as it is.
pub open spec fn script_entry_text(name: Seq<char>, body: Seq<char>) -> Seq<char> {
    "echo \""@ + name + ":\"\n"@ + body
}

/// Each script's text, in order.
pub open spec fn script_entries(scripts: Seq<(Seq<char>, Seq<char>)>) -> Seq<Seq<char>> {
    Seq::new(scripts.len(), |i: int| script_entry_text(scripts[i].0, scripts[i].1))
}

/// The scripts one after another, a line break between each two; nothing
/// where there are none.
pub open spec fn scripts_text(scripts: Seq<(Seq<char>, Seq<char>)>) -> Seq<char> {
    if scripts.len() == 0 {
        Seq::empty()
    } else {
        "echo \"scripts:\"\n"@ + join(script_entries(scripts), "\n"@)
    }
}

/// Where a repository is cloned to.
pub open spec fn repo_path_text(repopath: Seq<char>, name: Seq<char>) -> Seq<char> {
    "$HOME/"@ + repopath + "/"@ + name
}

/// Unlocking an encrypted repository, or stopping the script where that
/// fails.
pub open spec fn unlock_text(name: Seq<char>, repo_path: Seq<char>) -> Seq<char> {
    "if ! (cd "@ + repo_path + " && echo \"$GIT_CRYPT_PASSWORD\" | git-crypt unlock -); then\n"@
        + "  echo \"Error: Failed to unlock git-crypt repo "@ + name + "\"\n"@ + "  exit 1\n"@
        + "fi\n"@
}

/// Cloning a repository to `repo_path` and bringing it up to date.
pub open spec fn clone_text(name: Seq<char>, repo_path: Seq<char>) -> Seq<char> {
    "echo \""@ + name + ":\"\n"@ + "git clone --recursive https://github.com/"@ + name + " "@
        + repo_path + " \n"@ + "(cd "@ + repo_path
        + " && pwd && git pull && git checkout HEAD)\n"@
}

/// Everything for one repository: cloning it and bringing it up to date,
/// unlocking it where `unlock` is set, and then what its spec asks for.
pub open spec fn repo_text(
    name: Seq<char>,
    spec: RepoModel,
    repopath: Seq<char>,
    unlock: bool,
) -> Seq<char> {
    let path = repo_path_text(repopath, name);
    clone_text(name, path) + (if unlock {
        unlock_text(name, path)
    } else {
        Seq::empty()
    }) + cargo_install_text(path, spec.cargo) + repo_links_text(path, spec.link) + scripts_text(
        spec.script,
    )
}

/// Each repository's text, in order.
pub open spec fn repo_texts(
    repos: Seq<(Seq<char>, RepoModel)>,
    repopath: Seq<char>,
    unlock: bool,
) -> Seq<Seq<char>> {
    Seq::new(repos.len(), |i: int| repo_text(repos[i].0, repos[i].1, repopath, unlock))
}

/// A section of repositories.
pub open spec fn github_text(repos: Seq<(Seq<char>, RepoModel)>, repopath: Seq<char>) -> Seq<char> {
    GITHUB_HEADING@ + join(repo_texts(repos, repopath, false), "\n"@)
}

/// A section of encrypted repositories: the guard first, then the
/// repositories, each unlocked before anything else is done with it.
pub open spec fn gitcrypt_text(repos: Seq<(Seq<char>, RepoModel)>, repopath: Seq<char>) -> Seq<
    char,
> {
    GITCRYPT_HEADING@ + GITCRYPT_GUARD@ + join(
        repo_texts(repos, repopath, true),
        "\n"@,
    )
}

/// The shell text of a section.
pub open spec fn section_text(section: Section) -> Seq<char> {
    match section {
        Section::Link(items) => heredoc_text(LINK_HEADER@, LINK_BLOCK@, items),
        Section::Ppa(items) => heredoc_text(PPA_HEADER@, PPA_BLOCK@, items),
        Section::Apt(items) => continue_text(APT_HEADER@, APT_BLOCK@, items),
        Section::Dnf(items) => continue_text(DNF_HEADER@, DNF_BLOCK@, items),
        Section::Npm(items) => continue_text(NPM_HEADER@, NPM_BLOCK@, items),
        Section::Pip3(items) => continue_text(PIP3_HEADER@, PIP3_BLOCK@, items),
        Section::Pipx(items) => heredoc_text(PIPX_HEADER@, PIPX_BLOCK@, items),
        Section::Flatpak(items) => continue_text(FLATPAK_HEADER@, FLATPAK_BLOCK@, items),
        Section::Cargo(items) => continue_text(CARGO_HEADER@, CARGO_BLOCK@, items),
        Section::Github(repos, repopath) => github_text(repos, repopath),
        Section::GitCrypt(repos, repopath) => gitcrypt_text(repos, repopath),
        Section::Script(scripts) => scripts_text(scripts),
    }
}

/// Whether any of the repositories has scripts to run.
pub open spec fn any_scripts(repos: Seq<(Seq<char>, RepoModel)>) -> bool {
    exists|i: int| 0 <= i < repos.len() && (#[trigger] repos[i]).1.script.len() > 0
}

/// The shared shell functions that a section needs in the script: the linker
/// where it makes links, as every section of links or of repositories does,
/// and the fetcher of releases where it runs scripts, its own or those of
/// its repositories.
pub open spec fn needed_functions(section: Section) -> Seq<Seq<char>> {
    match section {
        Section::Link(_) => seq![LINKER@],
        Section::Github(repos, _) => if any_scripts(repos) {
            seq![LINKER@, LATEST@]
        } else {
            seq![LINKER@]
        },
        Section::GitCrypt(repos, _) => if any_scripts(repos) {
            seq![LINKER@, LATEST@]
        } else {
            seq![LINKER@]
        },
        Section::Script(_) => seq![LATEST@],
        _ => Seq::empty(),
    }
}

/// The shared functions that a section needs, as one text: a line break
/// between each two; nothing for a section that needs none.
pub open spec fn functions_text(section: Section) -> Seq<char> {
    join(needed_functions(section), "\n"@)
}

/// What the sections need, section by section, with everything that two of
/// them need in it twice.
pub open spec fn needs(sections: Seq<Section>) -> Seq<Seq<char>>
    decreases sections.len(),
{
    if sections.len() == 0 {
        Seq::empty()
    } else {
        needs(sections.drop_last()) + needed_functions(sections.last())
    }
}

/// Each of the texts once, at the place where it first stands; blank texts
/// left out.
pub open spec fn distinct(all: Seq<Seq<char>>) -> Seq<Seq<char>>
    decreases all.len(),
{
    if all.len() == 0 {
        Seq::empty()
    } else {
        let before = distinct(all.drop_last());
        if is_blank(all.last()) || before.contains(all.last()) {
            before
        } else {
            before.push(all.last())
        }
    }
}

/// The shared functions that the sections need: each one once, in the order
/// in which the sections first ask for it.
pub open spec fn shared_functions(sections: Seq<Section>) -> Seq<Seq<char>> {
    distinct(needs(sections))
}

/// The shared functions as they stand in the script: a line break between
/// each two and one at the end; nothing where no section needs one.
pub open spec fn functions_part(sections: Seq<Section>) -> Seq<char> {
    let shared = shared_functions(sections);
    if shared.len() == 0 {
        Seq::empty()
    } else {
        join(shared, "\n"@) + "\n"@
    }
}

/// What the section at `index` adds to the script: its text, unless that is
/// blank; the very first section without the line break that its text
/// begins with.
pub open spec fn section_piece(section: Section, index: int) -> Seq<char> {
    let body = section_text(section);
    if is_blank(body) {
        Seq::empty()
    } else if index == 0 && body[0] == '\n' {
        body.drop_first()
    } else {
        body
    }
}

/// What each section adds to the script, in order.
pub open spec fn section_pieces(sections: Seq<Section>) -> Seq<Seq<char>> {
    Seq::new(sections.len(), |i: int| section_piece(sections[i], i))
}

/// The whole script: the preamble, the shared functions, then the sections
/// in the order given.
pub open spec fn script_text(sections: Seq<Section>) -> Seq<char> {
    PREAMBLE@ + functions_part(sections) + concat(section_pieces(sections))
}

/// Among distinct texts none stands twice, and none is blank.
pub proof fn lemma_distinct_once(all: Seq<Seq<char>>)
    ensures
        forall|a: int, b: int|
            0 <= a < b < distinct(all).len() ==> distinct(all)[a] != distinct(all)[b],
        forall|a: int| 0 <= a < distinct(all).len() ==> !is_blank(#[trigger] distinct(all)[a]),
    decreases all.len(),
{
    if all.len() > 0 {
        let before = distinct(all.drop_last());
        lemma_distinct_once(all.drop_last());
        if !(is_blank(all.last()) || before.contains(all.last())) {
            assert forall|a: int, b: int| 0 <= a < b < distinct(all).len() implies distinct(
                all,
            )[a] != distinct(all)[b] by {
                if b == before.len() {
                    assert(before[a] != all.last());
                }
            }
        }
    }
}

/// Every text that is not blank stands among the distinct ones.
pub proof fn lemma_distinct_complete(all: Seq<Seq<char>>, p: int)
    requires
        0 <= p < all.len(),
        !is_blank(all[p]),
    ensures
        distinct(all).contains(all[p]),
    decreases all.len(),
{
    let before = distinct(all.drop_last());
    if p == all.len() - 1 {
        if !before.contains(all.last()) {
            assert(distinct(all).last() == all[p]);
        }
    } else {
        lemma_distinct_complete(all.drop_last(), p);
        let k = choose|k: int| 0 <= k < before.len() && before[k] == all[p];
        assert(distinct(all)[k] == all[p]);
    }
}

/// Each of the distinct texts stands among the texts.
pub proof fn lemma_distinct_from(all: Seq<Seq<char>>, a: int)
    requires
        0 <= a < distinct(all).len(),
    ensures
        exists|p: int| 0 <= p < all.len() && #[trigger] all[p] == distinct(all)[a],
    decreases all.len(),
{
    let before = distinct(all.drop_last());
    let front = all.drop_last();
    if a < before.len() {
        lemma_distinct_from(front, a);
        let p = choose|p: int| 0 <= p < front.len() && #[trigger] front[p] == before[a];
        assert(all[p] == distinct(all)[a]);
    } else {
        assert(all[all.len() - 1] == distinct(all)[a]);
    }
}

/// The distinct texts stand in the order in which they first stand among
/// the texts: of two of them, the earlier one stands somewhere before the
/// later one stands anywhere.
pub proof fn lemma_distinct_in_order(all: Seq<Seq<char>>, a: int, b: int)
    requires
        0 <= a < b < distinct(all).len(),
    ensures
        exists|p: int|
            0 <= p < all.len() && #[trigger] all[p] == distinct(all)[a] && forall|q: int|
                0 <= q <= p ==> #[trigger] all[q] != distinct(all)[b],
    decreases all.len(),
{
    let front = all.drop_last();
    let before = distinct(front);
    let out = distinct(all);
    lemma_distinct_once(all);
    if b < before.len() {
        lemma_distinct_in_order(front, a, b);
        let p = choose|p: int|
            0 <= p < front.len() && #[trigger] front[p] == before[a] && forall|q: int|
                0 <= q <= p ==> #[trigger] front[q] != before[b];
        assert(all[p] == out[a]);
        assert forall|q: int| 0 <= q <= p implies #[trigger] all[q] != out[b] by {
            assert(all[q] == front[q]);
        }
    } else {
        // The later one came in with the last text: it stands nowhere
        // before that, and the earlier one stands somewhere before that.
        assert(out[b] == all.last());
        lemma_distinct_from(front, a);
        let p = choose|p: int| 0 <= p < front.len() && #[trigger] front[p] == before[a];
        assert(all[p] == out[a]);
        assert forall|q: int| 0 <= q <= p implies #[trigger] all[q] != out[b] by {
            assert(all[q] == front[q]);
            if front[q] == all.last() {
                lemma_distinct_complete(front, q);
            }
        }
    }
}

/// What a section needs stands among what the sections need.
pub proof fn lemma_needs_hold(sections: Seq<Section>, i: int, k: int) -> (p: int)
    requires
        0 <= i < sections.len(),
        0 <= k < needed_functions(sections[i]).len(),
    ensures
        0 <= p < needs(sections).len(),
        needs(sections)[p] == needed_functions(sections[i])[k],
    decreases sections.len(),
{
    let front = sections.drop_last();
    if i == sections.len() - 1 {
        needs(front).len() + k
    } else {
        lemma_needs_hold(front, i, k)
    }
}

/// No shared function stands twice among those that the sections need, and
/// none of them is blank.
pub proof fn law_shared_functions_once(sections: Seq<Section>)
    ensures
        forall|a: int, b: int|
            0 <= a < b < shared_functions(sections).len() ==> shared_functions(sections)[a]
                != shared_functions(sections)[b],
        forall|a: int|
            0 <= a < shared_functions(sections).len() ==> !is_blank(
                #[trigger] shared_functions(sections)[a],
            ),
{
    lemma_distinct_once(needs(sections));
}

/// Every shared function that a section needs stands among those that the
/// sections need together, unless it is blank.
pub proof fn law_shared_functions_complete(sections: Seq<Section>, i: int, k: int)
    requires
        0 <= i < sections.len(),
        0 <= k < needed_functions(sections[i]).len(),
        !is_blank(needed_functions(sections[i])[k]),
    ensures
        shared_functions(sections).contains(needed_functions(sections[i])[k]),
{
    let p = lemma_needs_hold(sections, i, k);
    lemma_distinct_complete(needs(sections), p);
}

/// The shared functions stand in the order in which the sections first need
/// them: of two of them, the earlier one is needed somewhere before the
/// later one is needed anywhere.
pub proof fn law_shared_functions_in_order(sections: Seq<Section>, a: int, b: int)
    requires
        0 <= a < b < shared_functions(sections).len(),
    ensures
        exists|p: int|
            0 <= p < needs(sections).len() && #[trigger] needs(sections)[p] == shared_functions(
                sections,
            )[a] && forall|q: int|
                0 <= q <= p ==> #[trigger] needs(sections)[q] != shared_functions(sections)[b],
{
    lemma_distinct_in_order(needs(sections), a, b);
}

/// A section of encrypted repositories begins with its heading and the
/// guard, however many repositories it holds.
pub proof fn law_gitcrypt_guard_first(repos: Seq<(Seq<char>, RepoModel)>, repopath: Seq<char>)
    ensures
        starts_with(
            section_text(Section::GitCrypt(repos, repopath)),
            GITCRYPT_HEADING@ + GITCRYPT_GUARD@,
        ),
{
    let head = GITCRYPT_HEADING@ + GITCRYPT_GUARD@;
    let text = section_text(Section::GitCrypt(repos, repopath));
    assert(text.subrange(0, head.len() as int) =~= head);
}

/// Each part stands in the whole that the parts are put together to.
pub proof fn lemma_concat_holds(parts: Seq<Seq<char>>, i: int)
    requires
        0 <= i < parts.len(),
    ensures
        contains_text(concat(parts), parts[i]),
    decreases parts.len(),
{
    let front = parts.drop_last();
    let whole = concat(parts);
    if i == parts.len() - 1 {
        let at = concat(front).len() as int;
        assert(whole.subrange(at, at + parts[i].len()) =~= parts[i]);
        assert(occurs_at(parts[i], whole, at));
    } else {
        lemma_concat_holds(front, i);
        let at = choose|at: int| occurs_at(front[i], concat(front), at);
        assert(whole.subrange(at, at + parts[i].len()) =~= concat(front).subrange(
            at,
            at + parts[i].len(),
        ));
        assert(occurs_at(parts[i], whole, at));
    }
}

/// What stands in a part of a text stands in the text.
pub proof fn lemma_contains_within(whole: Seq<char>, part: Seq<char>, needle: Seq<char>)
    requires
        contains_text(whole, part),
        contains_text(part, needle),
    ensures
        contains_text(whole, needle),
{
    let a = choose|a: int| occurs_at(part, whole, a);
    let b = choose|b: int| occurs_at(needle, part, b);
    assert(whole.subrange(a + b, a + b + needle.len()) =~= whole.subrange(
        a,
        a + part.len(),
    ).subrange(b, b + needle.len()));
    assert(occurs_at(needle, whole, a + b));
}

/// A script with a section of encrypted repositories holds the guard,
/// wherever among the sections that section stands.
pub proof fn law_script_holds_guard(sections: Seq<Section>, i: int)
    requires
        0 <= i < sections.len(),
        sections[i] is GitCrypt,
    ensures
        contains_text(script_text(sections), GITCRYPT_GUARD@),
{
    let heading = GITCRYPT_HEADING@;
    let guard = GITCRYPT_GUARD@;
    let body = section_text(sections[i]);
    let piece = section_piece(sections[i], i);
    reveal_strlit("\necho \"git-crypt repos:\"\n");
    assert(body[1] == heading[1]);
    assert(!is_whitespace(body[1]));
    assert(!is_blank(body));
    let at = heading.len() as int;
    assert(body.subrange(at, at + guard.len()) =~= guard);
    if piece == body {
        assert(occurs_at(guard, piece, at));
    } else {
        assert(piece.subrange(at - 1, at - 1 + guard.len()) =~= guard);
        assert(occurs_at(guard, piece, at - 1));
    }
    let pieces = section_pieces(sections);
    assert(pieces[i] == piece);
    lemma_concat_holds(pieces, i);
    lemma_contains_within(concat(pieces), piece, guard);
    let whole = script_text(sections);
    let from = (PREAMBLE@ + functions_part(sections)).len() as int;
    assert(whole.subrange(from, from + concat(pieces).len()) =~= concat(pieces));
    assert(occurs_at(concat(pieces), whole, from));
    lemma_contains_within(whole, concat(pieces), guard);
}

/// Sections that all need the same one shared function bring exactly one
/// copy of it into the script, however many they are.
pub proof fn law_same_function_once(sections: Seq<Section>, function: Seq<char>)
    requires
        sections.len() > 0,
        !is_blank(function),
        forall|i: int|
            0 <= i < sections.len() ==> needed_functions(#[trigger] sections[i]) == seq![function],
    ensures
        shared_functions(sections) == seq![function],
    decreases sections.len(),
{
    let front = sections.drop_last();
    assert(needs(sections).drop_last() =~= needs(front));
    assert(needs(sections).last() == function);
    if front.len() == 0 {
        assert(needs(front) =~= Seq::<Seq<char>>::empty());
        assert(distinct(needs(front)) =~= Seq::<Seq<char>>::empty());
        assert(shared_functions(sections) =~= seq![function]);
    } else {
        assert forall|i: int| 0 <= i < front.len() implies needed_functions(#[trigger] front[i])
            == seq![function] by {
            assert(front[i] == sections[i]);
        }
        law_same_function_once(front, function);
        assert(shared_functions(front)[0] == function);
    }
}

/// Taking one part more adds it.
pub proof fn lemma_concat_step(parts: Seq<Seq<char>>, n: int)
    requires
        0 <= n < parts.len(),
    ensures
        concat(parts.take(n + 1)) == concat(parts.take(n)) + parts[n],
{
    assert(parts.take(n + 1).drop_last() =~= parts.take(n));
}

/// A loop over a here-document of the items that runs `block` on each line;
/// under `header`, unless that is empty.
pub fn render_heredoc(header: &str, block: &str, items: &[String]) -> (r: String)
    ensures
        r@ == heredoc_text(header@, block@, texts(items@)),
{
    let lines = join_strings(items, "\n");
    let mut out = String::new();
    if !header.is_empty() {
        out.append("\n");
        out.append(header);
        out.append("\n");
    }
    out.append("while read -r file link; do\n    ");
    out.append(block);
    out.append("\ndone<<EOM\n");
    out.append(lines.as_str());
    out.append("\nEOM\n");
    assert(out@ =~= heredoc_text(header@, block@, texts(items@)));
    out
}

/// One command with the items as its arguments, one to a line, under
/// `header`.
pub fn render_continue(header: &str, block: &str, items: &[String]) -> (r: String)
    ensures
        r@ == continue_text(header@, block@, texts(items@)),
{
    let args = join_strings(items, " \\\n    ");
    let mut out = String::new();
    out.append("\n");
    out.append(header);
    out.append("\n");
    out.append(block);
    out.append(" ");
    out.append(args.as_str());
    out.append("\n");
    assert(out@ =~= continue_text(header@, block@, texts(items@)));
    out
}

/// The text that links files of a repository cloned to `repo_path`.
pub fn render_repo_links(repo_path: &str, link_spec: &LinkSpec) -> (r: String)
    ensures
        r@ == repo_links_text(repo_path@, link_spec@),
{
    if link_spec.items.is_empty() && !link_spec.recursive {
        return String::new();
    }
    let entries = link_spec.items.as_slice();
    let ghost wanted = repo_link_lines(repo_path@, link_spec@.items);
    let mut lines: Vec<String> = Vec::new();
    let mut i: usize = 0;
    while i < entries.len()
        invariant
            i <= entries.len(),
            model(entries@) == link_spec@.items,
            wanted == repo_link_lines(repo_path@, link_spec@.items),
            texts(lines@) == wanted.take(i as int),
        decreases entries.len() - i,
    {
        let mut line = repo_file_path(repo_path, entries[i].0.as_str());
        line.append(" ");
        line.append(entries[i].1.as_str());
        assert(model(entries@)[i as int] == (entries[i as int].0@, entries[i as int].1@));
        let ghost before = lines@;
        lines.push(line);
        assert(texts(lines@) =~= texts(before).push(line@));
        assert(wanted.take(i + 1) =~= wanted.take(i as int).push(wanted[i as int]));
        i += 1;
    }
    assert(wanted.take(i as int) =~= wanted);
    let mut out = String::new();
    out.append(LINK_HEADER);
    out.append("\n");
    let loop_text = render_heredoc("", LINK_BLOCK, lines.as_slice());
    proof {
        reveal_strlit("");
        assert(""@ =~= Seq::<char>::empty());
    }
    out.append(loop_text.as_str());
    assert(out@ =~= repo_links_text(repo_path@, link_spec@));
    out
}

/// The text that installs from the given directories of a repository cloned
/// to `repo_path`.
pub fn render_repo_cargo_install(repo_path: &str, paths: &[String]) -> (r: String)
    ensures
        r@ == cargo_install_text(repo_path@, texts(paths@)),
{
    if paths.len() == 0 {
        return String::new();
    }
    let ghost steps = cargo_steps(repo_path@, texts(paths@));
    let mut out = String::new();
    out.append("echo \"cargo install (path):\"\n");
    let ghost head = out@;
    let mut i: usize = 0;
    proof {
        assert(steps.take(0) =~= Seq::<Seq<char>>::empty());
        assert(head + concat(steps.take(0)) =~= head);
    }
    while i < paths.len()
        invariant
            i <= paths.len(),
            steps == cargo_steps(repo_path@, texts(paths@)),
            out@ == head + concat(steps.take(i as int)),
        decreases paths.len() - i,
    {
        proof {
            lemma_concat_step(steps, i as int);
        }
        let ghost before = out@;
        out.append("echo \"Installing from ");
        out.append(repo_path);
        out.append("/");
        out.append(paths[i].as_str());
        out.append("\"\n");
        out.append("(cd ");
        out.append(repo_path);
        out.append("/");
        out.append(paths[i].as_str());
        out.append(" && cargo install --path .)\n");
        assert(texts(paths@)[i as int] == paths[i as int]@);
        assert(out@ =~= before + cargo_step(repo_path@, paths[i as int]@));
        assert(out@ =~= head + (concat(steps.take(i as int)) + steps[i as int]));
        i += 1;
    }
    assert(steps.take(i as int) =~= steps);
    out
}

/// The scripts, each under its name.
pub fn render_script(map: &Table<String>) -> (r: String)
    ensures
        r@ == scripts_text(map@),
{
    if map.is_empty() {
        return String::new();
    }
    let entries = map.as_slice();
    let ghost parts = script_entries(map@);
    let mut out = String::new();
    out.append("echo \"scripts:\"\n");
    let ghost head = out@;
    let mut i: usize = 0;
    proof {
        assert(parts.take(0) =~= Seq::<Seq<char>>::empty());
        assert(head + join(parts.take(0), "\n"@) =~= head);
    }
    while i < entries.len()
        invariant
            i <= entries.len(),
            model(entries@) == map@,
            parts == script_entries(map@),
            out@ == head + join(parts.take(i as int), "\n"@),
        decreases entries.len() - i,
    {
        proof {
            lemma_join_step(parts, "\n"@, i as int);
        }
        let ghost before = out@;
        if i > 0 {
            out.append("\n");
        }
        out.append("echo \"");
        out.append(entries[i].0.as_str());
        out.append(":\"\n");
        out.append(entries[i].1.as_str());
        assert(model(entries@)[i as int] == (entries[i as int].0@, entries[i as int].1@));
        assert(out@ =~= head + join(parts.take(i + 1), "\n"@));
        i += 1;
    }
    assert(parts.take(i as int) =~= parts);
    out
}

fn render_clone(name: &str, path: &str) -> (r: String)
    ensures
        r@ == clone_text(name@, path@),
{
    let mut out = String::new();
    out.append("echo \"");
    out.append(name);
    out.append(":\"\n");
    out.append("git clone --recursive https://github.com/");
    out.append(name);
    out.append(" ");
    out.append(path);
    out.append(" \n");
    out.append("(cd ");
    out.append(path);
    out.append(" && pwd && git pull && git checkout HEAD)\n");
    assert(out@ =~= clone_text(name@, path@));
    out
}

fn render_unlock(name: &str, path: &str) -> (r: String)
    ensures
        r@ == unlock_text(name@, path@),
{
    let mut out = String::new();
    out.append("if ! (cd ");
    out.append(path);
    out.append(" && echo \"$GIT_CRYPT_PASSWORD\" | git-crypt unlock -); then\n");
    out.append("  echo \"Error: Failed to unlock git-crypt repo ");
    out.append(name);
    out.append("\"\n");
    out.append("  exit 1\n");
    out.append("fi\n");
    assert(out@ =~= unlock_text(name@, path@));
    out
}

/// Everything for one repository.
fn render_repo(name: &str, spec: &RepoSpec, repopath: &str, unlock: bool) -> (r: String)
    ensures
        r@ == repo_text(name@, spec@, repopath@, unlock),
{
    let mut path = String::new();
    path.append("$HOME/");
    path.append(repopath);
    path.append("/");
    path.append(name);
    assert(path@ =~= repo_path_text(repopath@, name@));
    let path = path.as_str();
    let mut out = render_clone(name, path);
    if unlock {
        let unlocking = render_unlock(name, path);
        out.append(unlocking.as_str());
    }
    let installs = render_repo_cargo_install(path, spec.cargo.as_slice());
    out.append(installs.as_str());
    let links = render_repo_links(path, &spec.link);
    out.append(links.as_str());
    let scripts = render_script(&spec.script.items);
    out.append(scripts.as_str());
    assert(out@ =~= repo_text(name@, spec@, repopath@, unlock));
    out
}

/// The repositories one after another, a line break between each two.
fn render_repos(out: &mut String, map: &Table<RepoSpec>, repopath: &str, unlock: bool)
    ensures
        final(out)@ == old(out)@ + join(repo_texts(map@, repopath@, unlock), "\n"@),
{
    let entries = map.as_slice();
    let ghost parts = repo_texts(map@, repopath@, unlock);
    let ghost head = out@;
    let mut i: usize = 0;
    proof {
        assert(parts.take(0) =~= Seq::<Seq<char>>::empty());
        assert(head + join(parts.take(0), "\n"@) =~= head);
    }
    while i < entries.len()
        invariant
            i <= entries.len(),
            model(entries@) == map@,
            parts == repo_texts(map@, repopath@, unlock),
            out@ == head + join(parts.take(i as int), "\n"@),
        decreases entries.len() - i,
    {
        proof {
            lemma_join_step(parts, "\n"@, i as int);
        }
        if i > 0 {
            out.append("\n");
        }
        let one = render_repo(entries[i].0.as_str(), &entries[i].1, repopath, unlock);
        out.append(one.as_str());
        assert(model(entries@)[i as int] == (entries[i as int].0@, entries[i as int].1@));
        assert(out@ =~= head + join(parts.take(i + 1), "\n"@));
        i += 1;
    }
    assert(parts.take(i as int) =~= parts);
}

/// A section of repositories, cloned below `repopath` in the home directory.
pub fn render_github(map: &Table<RepoSpec>, repopath: &str) -> (r: String)
    ensures
        r@ == github_text(map@, repopath@),
{
    let mut out = String::new();
    out.append(GITHUB_HEADING);
    render_repos(&mut out, map, repopath, false);
    out
}

/// A section of encrypted repositories, cloned below `repopath` in the home
/// directory.
pub fn render_gitcrypt(map: &Table<RepoSpec>, repopath: &str) -> (r: String)
    ensures
        r@ == gitcrypt_text(map@, repopath@),
{
    let mut out = String::new();
    out.append(GITCRYPT_HEADING);
    out.append(GITCRYPT_GUARD);
    render_repos(&mut out, map, repopath, true);
    out
}

/// Whether any of the repositories has scripts to run.
fn has_scripts(repos: &Table<RepoSpec>) -> (r: bool)
    ensures
        r == any_scripts(repos@),
{
    let entries = repos.as_slice();
    let mut i: usize = 0;
    while i < entries.len()
        invariant
            i <= entries.len(),
            model(entries@) == repos@,
            forall|k: int| 0 <= k < i ==> (#[trigger] repos@[k]).1.script.len() == 0,
        decreases entries.len() - i,
    {
        assert(repos@[i as int] == (entries[i as int].0@, entries[i as int].1@));
        if !entries[i].1.script.items.is_empty() {
            return true;
        }
        i += 1;
    }
    false
}

impl ManifestType {
    /// The shared shell functions that the section needs in the script.
    pub fn required_functions(&self) -> (r: Vec<String>)
        ensures
            texts(r@) == needed_functions(self@),
    {
        let mut needed: Vec<String> = Vec::new();
        match self {
            ManifestType::Link(_) => {
                needed.push(LINKER.to_string());
            },
            ManifestType::Github(repos, _) => {
                needed.push(LINKER.to_string());
                if has_scripts(repos) {
                    needed.push(LATEST.to_string());
                }
            },
            ManifestType::GitCrypt(repos, _) => {
                needed.push(LINKER.to_string());
                if has_scripts(repos) {
                    needed.push(LATEST.to_string());
                }
            },
            ManifestType::Script(_) => {
                needed.push(LATEST.to_string());
            },
            _ => {},
        }
        assert(texts(needed@) =~= needed_functions(self@));
        needed
    }

    /// The shared shell functions that the section needs in the script, as
    /// one text; the empty text for a section that needs none.
    pub fn functions(&self) -> (r: String)
        ensures
            r@ == functions_text(self@),
    {
        let needed = self.required_functions();
        join_strings(needed.as_slice(), "\n")
    }

    /// The shell text of the section.
    pub fn render(&self) -> (r: String)
        ensures
            r@ == section_text(self@),
    {
        match self {
            ManifestType::Link(items) => render_heredoc(LINK_HEADER, LINK_BLOCK, items.as_slice()),
            ManifestType::Ppa(items) => render_heredoc(PPA_HEADER, PPA_BLOCK, items.as_slice()),
            ManifestType::Apt(items) => render_continue(APT_HEADER, APT_BLOCK, items.as_slice()),
            ManifestType::Dnf(items) => render_continue(DNF_HEADER, DNF_BLOCK, items.as_slice()),
            ManifestType::Npm(items) => render_continue(NPM_HEADER, NPM_BLOCK, items.as_slice()),
            ManifestType::Pip3(items) => render_continue(
                PIP3_HEADER,
                PIP3_BLOCK,
                items.as_slice(),
            ),
            ManifestType::Pipx(items) => render_heredoc(
                PIPX_HEADER,
                PIPX_BLOCK,
                items.as_slice(),
            ),
            ManifestType::Flatpak(items) => render_continue(
                FLATPAK_HEADER,
                FLATPAK_BLOCK,
                items.as_slice(),
            ),
            ManifestType::Cargo(items) => render_continue(
                CARGO_HEADER,
                CARGO_BLOCK,
                items.as_slice(),
            ),
            ManifestType::Github(map, repopath) => render_github(map, repopath.as_str()),
            ManifestType::GitCrypt(map, repopath) => render_gitcrypt(map, repopath.as_str()),
            ManifestType::Script(map) => render_script(map),
        }
    }
}

/// Whether one of the strings holds `text`.
fn holds(items: &Vec<String>, text: &String) -> (r: bool)
    ensures
        r == texts(items@).contains(text@),
{
    let mut i: usize = 0;
    while i < items.len()
        invariant
            i <= items.len(),
            forall|j: int| 0 <= j < i ==> texts(items@)[j] != text@,
        decreases items.len() - i,
    {
        if items[i] == *text {
            assert(texts(items@)[i as int] == text@);
            return true;
        }
        i += 1;
    }
    false
}

/// The whole script for the sections, in the order given.
pub fn build_script(sections: &[ManifestType]) -> (r: String)
    ensures
        r@ == script_text(sections_of(sections@)),
{
    let ghost all = sections_of(sections@);
    let mut script = String::new();
    script.append(PREAMBLE);

    let mut blocks: Vec<String> = Vec::new();
    let mut i: usize = 0;
    proof {
        assert(all.take(0) =~= Seq::<Section>::empty());
        assert(texts(blocks@) =~= distinct(needs(all.take(0))));
    }
    while i < sections.len()
        invariant
            i <= sections.len(),
            all == sections_of(sections@),
            texts(blocks@) == distinct(needs(all.take(i as int))),
        decreases sections.len() - i,
    {
        let needed = sections[i].required_functions();
        let ghost so_far = needs(all.take(i as int));
        let ghost wanted = texts(needed@);
        proof {
            assert(all.take(i + 1).drop_last() =~= all.take(i as int));
            assert(all.take(i + 1).last() == sections[i as int]@);
            assert(wanted.take(0) =~= Seq::<Seq<char>>::empty());
            assert(so_far + wanted.take(0) =~= so_far);
        }
        let mut j: usize = 0;
        while j < needed.len()
            invariant
                j <= needed.len(),
                wanted == texts(needed@),
                texts(blocks@) == distinct(so_far + wanted.take(j as int)),
            decreases needed.len() - j,
        {
            proof {
                let next = so_far + wanted.take(j + 1);
                assert(next.drop_last() =~= so_far + wanted.take(j as int));
                assert(next.last() == needed[j as int]@);
            }
            let blank = str_is_blank(needed[j].as_str());
            if !blank && !holds(&blocks, &needed[j]) {
                let ghost before = blocks@;
                blocks.push(needed[j].clone());
                assert(texts(blocks@) =~= texts(before).push(needed[j as int]@));
            }
            j += 1;
        }
        proof {
            assert(wanted.take(j as int) =~= wanted);
        }
        i += 1;
    }
    assert(all.take(i as int) =~= all);
    if blocks.len() > 0 {
        let joined = join_strings(blocks.as_slice(), "\n");
        script.append(joined.as_str());
        script.append("\n");
    }
    let ghost head = script@;
    assert(head =~= PREAMBLE@ + functions_part(all));
    let ghost parts = section_pieces(all);
    let mut i: usize = 0;
    proof {
        assert(parts.take(0) =~= Seq::<Seq<char>>::empty());
        assert(head + concat(parts.take(0)) =~= head);
    }
    while i < sections.len()
        invariant
            i <= sections.len(),
            all == sections_of(sections@),
            parts == section_pieces(all),
            script@ == head + concat(parts.take(i as int)),
        decreases sections.len() - i,
    {
        proof {
            lemma_concat_step(parts, i as int);
        }
        let body = sections[i].render();
        let ghost before = script@;
        if !str_is_blank(body.as_str()) {
            let chars = body.as_str().unicode_len();
            if i == 0 && chars > 0 && body.as_str().get_char(0) == '\n' {
                let rest = body.as_str().substring_char(1, chars);
                assert(rest@ =~= body@.drop_first());
                script.append(rest);
            } else {
                script.append(body.as_str());
            }
        }
        assert(script@ =~= before + parts[i as int]);
        assert(script@ =~= head + (concat(parts.take(i as int)) + parts[i as int]));
        i += 1;
    }
    assert(parts.take(i as int) =~= parts);
    script
}

} // verus!
