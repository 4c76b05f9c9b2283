//! From a manifest and a command line to the sections of the script: which
//! sections take part, what each one holds, and in which order.

use crate::cli::{any_specified, Cli, CliModel};
use crate::config::{ManifestModel, ManifestSpec};
use crate::fuzzy::{include_mask, included, law_empty_patterns, law_no_patterns, pick, Fuzz};
use crate::links::{found, home_text, link_lines, linkspec_to_vec, resolve_home};
use crate::manifest::{build_script, script_text, sections_of, ManifestType, Section};
use crate::sorting::{
    law_sorted_texts_ordered, lemma_sorted_texts_len, nondecreasing, sorted_map, sorted_texts,
    sorted_vec,
};
use crate::table::{keys_of, Table};
use crate::text::{copied, str_eq, texts};
use vstd::prelude::*;
use vstd::string::*;

verus! {

/// A copy of `first` followed by a copy of `second`.
fn merged(first: &Vec<String>, second: &Vec<String>) -> (r: Vec<String>)
    ensures
        texts(r@) == texts(first@) + texts(second@),
{
    let mut out: Vec<String> = Vec::new();
    let mut i: usize = 0;
    while i < first.len()
        invariant
            i <= first.len(),
            out@ == first@.take(i as int),
        decreases first.len() - i,
    {
        out.push(first[i].clone());
        assert(first@.take(i + 1) =~= first@.take(i as int).push(first[i as int]));
        i += 1;
    }
    let mut j: usize = 0;
    while j < second.len()
        invariant
            i == first.len(),
            j <= second.len(),
            out@ == first@.take(i as int) + second@.take(j as int),
        decreases second.len() - j,
    {
        out.push(second[j].clone());
        assert(second@.take(j + 1) =~= second@.take(j as int).push(second[j as int]));
        assert(first@.take(i as int) + second@.take(j + 1) =~= (first@.take(i as int)
            + second@.take(j as int)).push(second[j as int]));
        j += 1;
    }
    assert(first@.take(i as int) =~= first@);
    assert(second@.take(j as int) =~= second@);
    assert(texts(out@) =~= texts(first@) + texts(second@));
    out
}

/// The packages for `apt`: those for any package manager, then its own.
pub fn merge_pkg_apt(spec: &ManifestSpec) -> (r: Vec<String>)
    ensures
        texts(r@) == spec@.pkg + spec@.apt,
{
    merged(&spec.pkg.items, &spec.apt.items)
}

/// The packages for `dnf`: those for any package manager, then its own.
pub fn merge_pkg_dnf(spec: &ManifestSpec) -> (r: Vec<String>)
    ensures
        texts(r@) == spec@.pkg + spec@.dnf,
{
    merged(&spec.pkg.items, &spec.dnf.items)
}

/// Whether a section takes part: always in a run for the complete manifest,
/// else only if its flag was given.
pub open spec fn wanted(complete: bool, patterns: Seq<Seq<char>>) -> bool {
    complete || patterns.len() > 0
}

/// What a section of a list holds: the items that its patterns select, in
/// the order of strings; nothing where the section takes no part.
#[verifier::opaque]
pub open spec fn chosen(complete: bool, items: Seq<Seq<char>>, patterns: Seq<Seq<char>>) -> Seq<
    Seq<char>,
> {
    if wanted(complete, patterns) {
        sorted_texts(included(items, patterns))
    } else {
        Seq::empty()
    }
}

/// What a section of a map holds: the entries whose keys its patterns
/// select; nothing where the section takes no part.
#[verifier::opaque]
pub open spec fn chosen_entries<W>(
    complete: bool,
    entries: Seq<(Seq<char>, W)>,
    patterns: Seq<Seq<char>>,
) -> Seq<(Seq<char>, W)> {
    if wanted(complete, patterns) {
        pick(entries, include_mask(keys_of(entries), patterns))
    } else {
        Seq::empty()
    }
}

/// The section, if it is there.
pub open spec fn optional(present: bool, section: Section) -> Seq<Section> {
    if present {
        seq![section]
    } else {
        Seq::empty()
    }
}

/// The kinds of section, in the order in which a script holds them.
#[derive(Debug, Clone, Copy, PartialEq, Eq)]
pub enum Kind {
    Link,
    Ppa,
    Apt,
    Dnf,
    Npm,
    Pip3,
    Pipx,
    Flatpak,
    Cargo,
    Github,
    GitCrypt,
    Script,
}

/// The kind of a section.
pub open spec fn kind_of(section: Section) -> Kind {
    match section {
        Section::Link(_) => Kind::Link,
        Section::Ppa(_) => Kind::Ppa,
        Section::Apt(_) => Kind::Apt,
        Section::Dnf(_) => Kind::Dnf,
        Section::Npm(_) => Kind::Npm,
        Section::Pip3(_) => Kind::Pip3,
        Section::Pipx(_) => Kind::Pipx,
        Section::Flatpak(_) => Kind::Flatpak,
        Section::Cargo(_) => Kind::Cargo,
        Section::Github(_, _) => Kind::Github,
        Section::GitCrypt(_, _) => Kind::GitCrypt,
        Section::Script(_) => Kind::Script,
    }
}

/// The place of a kind in a script. The two kinds of system packages share
/// one place: a script holds at most one of them.
pub open spec fn place(kind: Kind) -> int {
    match kind {
        Kind::Link => 0,
        Kind::Ppa => 1,
        Kind::Apt => 2,
        Kind::Dnf => 2,
        Kind::Npm => 3,
        Kind::Pip3 => 4,
        Kind::Pipx => 5,
        Kind::Flatpak => 6,
        Kind::Cargo => 7,
        Kind::Github => 8,
        Kind::GitCrypt => 9,
        Kind::Script => 10,
    }
}

/// The kinds whose sections hold a map; the sections of the others hold a
/// list.
pub open spec fn holds_map(kind: Kind) -> bool {
    kind is Github || kind is GitCrypt || kind is Script
}

/// The patterns that the command line gives for a kind of section.
pub open spec fn patterns_for(c: CliModel, kind: Kind) -> Seq<Seq<char>> {
    match kind {
        Kind::Link => c.link,
        Kind::Ppa => c.ppa,
        Kind::Apt => c.apt,
        Kind::Dnf => c.dnf,
        Kind::Npm => c.npm,
        Kind::Pip3 => c.pip3,
        Kind::Pipx => c.pipx,
        Kind::Flatpak => c.flatpak,
        Kind::Cargo => c.cargo,
        Kind::Github => c.github,
        Kind::GitCrypt => c.git_crypt,
        Kind::Script => c.script,
    }
}

/// Whether a kind of section can stand in a script for this command line:
/// any kind but the two of system packages, of which the package manager
/// picks one or none.
pub open spec fn applies(c: CliModel, kind: Kind) -> bool {
    match kind {
        Kind::Apt => c.pkgmgr == "deb"@,
        Kind::Dnf => c.pkgmgr == "rpm"@,
        _ => true,
    }
}

/// What the manifest has for a kind of section that holds a list; `lines`
/// are the lines of the link section. Either kind of system packages has the
/// packages for any package manager together with its own, and `pip3` those
/// built with distutils together with the others.
pub open spec fn source_list(m: ManifestModel, lines: Seq<Seq<char>>, kind: Kind) -> Seq<
    Seq<char>,
> {
    match kind {
        Kind::Link => lines,
        Kind::Ppa => m.ppa,
        Kind::Apt => m.pkg + m.apt,
        Kind::Dnf => m.pkg + m.dnf,
        Kind::Npm => m.npm,
        Kind::Pip3 => m.pip3.items + m.pip3.distutils,
        Kind::Pipx => m.pipx,
        Kind::Flatpak => m.flatpak,
        Kind::Cargo => m.cargo,
        _ => Seq::empty(),
    }
}

/// The section of a kind that holds a list, with these items.
pub open spec fn list_section(kind: Kind, items: Seq<Seq<char>>) -> Section {
    match kind {
        Kind::Ppa => Section::Ppa(items),
        Kind::Apt => Section::Apt(items),
        Kind::Dnf => Section::Dnf(items),
        Kind::Npm => Section::Npm(items),
        Kind::Pip3 => Section::Pip3(items),
        Kind::Pipx => Section::Pipx(items),
        Kind::Flatpak => Section::Flatpak(items),
        Kind::Cargo => Section::Cargo(items),
        _ => Section::Link(items),
    }
}

/// The section of a kind as a run holds it, if it holds it: what the kind's
/// patterns select of what the manifest has for it.
pub open spec fn section_for(
    m: ManifestModel,
    c: CliModel,
    lines: Seq<Seq<char>>,
    kind: Kind,
) -> Section {
    let complete = !any_specified(c);
    match kind {
        Kind::Github => Section::Github(
            chosen_entries(complete, m.github.items, c.github),
            m.github.repopath,
        ),
        Kind::GitCrypt => Section::GitCrypt(
            chosen_entries(complete, m.git_crypt.items, c.git_crypt),
            m.git_crypt.repopath,
        ),
        Kind::Script => Section::Script(chosen_entries(complete, m.script, c.script)),
        _ => list_section(
            kind,
            chosen(complete, source_list(m, lines, kind), patterns_for(c, kind)),
        ),
    }
}

/// How many items or entries a section holds.
pub open spec fn payload_len(section: Section) -> nat {
    match section {
        Section::Link(items) => items.len(),
        Section::Ppa(items) => items.len(),
        Section::Apt(items) => items.len(),
        Section::Dnf(items) => items.len(),
        Section::Npm(items) => items.len(),
        Section::Pip3(items) => items.len(),
        Section::Pipx(items) => items.len(),
        Section::Flatpak(items) => items.len(),
        Section::Cargo(items) => items.len(),
        Section::Github(repos, _) => repos.len(),
        Section::GitCrypt(repos, _) => repos.len(),
        Section::Script(scripts) => scripts.len(),
    }
}

/// What the manifest has for a kind of section, with nothing filtered out:
/// lists in the order of strings, maps in the order of their keys.
pub open spec fn whole_section(m: ManifestModel, lines: Seq<Seq<char>>, kind: Kind) -> Section {
    match kind {
        Kind::Github => Section::Github(m.github.items, m.github.repopath),
        Kind::GitCrypt => Section::GitCrypt(m.git_crypt.items, m.git_crypt.repopath),
        Kind::Script => Section::Script(m.script),
        _ => list_section(kind, sorted_texts(source_list(m, lines, kind))),
    }
}

/// What a kind of section adds to the script: its section, unless the kind
/// cannot stand in the script or its section holds nothing.
#[verifier::opaque]
pub open spec fn part(m: ManifestModel, c: CliModel, lines: Seq<Seq<char>>, kind: Kind) -> Seq<
    Section,
> {
    optional(
        applies(c, kind) && payload_len(section_for(m, c, lines, kind)) > 0,
        section_for(m, c, lines, kind),
    )
}

/// The sections of the script for a manifest and a command line, with the
/// lines of the link section given. A run without any section flag is for
/// the complete manifest: every section takes part. A run with a section
/// flag is for the named sections only. A section that takes part holds what
/// its patterns select, and is left out where that is nothing. The sections
/// stand in the order of their kinds.
pub open spec fn planned(m: ManifestModel, c: CliModel, lines: Seq<Seq<char>>) -> Seq<Section> {
    part(m, c, lines, Kind::Link) + part(m, c, lines, Kind::Ppa) + part(m, c, lines, Kind::Apt)
        + part(m, c, lines, Kind::Dnf) + part(m, c, lines, Kind::Npm) + part(
        m,
        c,
        lines,
        Kind::Pip3,
    ) + part(m, c, lines, Kind::Pipx) + part(m, c, lines, Kind::Flatpak) + part(
        m,
        c,
        lines,
        Kind::Cargo,
    ) + part(m, c, lines, Kind::Github) + part(m, c, lines, Kind::GitCrypt) + part(
        m,
        c,
        lines,
        Kind::Script,
    )
}

/// Each of the sections is the section of its kind for this run, holds
/// something, and is of a kind that takes part in the run; and the sections
/// stand in the order of their kinds, from `low` on and below `high`.
#[verifier::opaque]
pub open spec fn well_planned(
    sections: Seq<Section>,
    m: ManifestModel,
    c: CliModel,
    lines: Seq<Seq<char>>,
    low: int,
    high: int,
) -> bool {
    &&& forall|i: int|
        0 <= i < sections.len() ==> {
            let kind = kind_of(#[trigger] sections[i]);
            &&& sections[i] == section_for(m, c, lines, kind)
            &&& payload_len(sections[i]) > 0
            &&& wanted(!any_specified(c), patterns_for(c, kind))
            &&& applies(c, kind)
            &&& low <= place(kind) < high
        }
    &&& forall|i: int, j: int|
        0 <= i < j < sections.len() ==> place(kind_of(#[trigger] sections[i])) < place(
            kind_of(#[trigger] sections[j]),
        )
}

/// Well-planned sections followed by well-planned sections of later kinds
/// are well planned.
pub proof fn lemma_well_planned_append(
    a: Seq<Section>,
    b: Seq<Section>,
    m: ManifestModel,
    c: CliModel,
    lines: Seq<Seq<char>>,
    low: int,
    mid: int,
    high: int,
)
    requires
        well_planned(a, m, c, lines, low, mid),
        well_planned(b, m, c, lines, mid, high),
        low <= mid <= high,
    ensures
        well_planned(a + b, m, c, lines, low, high),
{
    reveal(well_planned);
    let s = a + b;
    assert forall|i: int| 0 <= i < s.len() implies {
        let kind = kind_of(#[trigger] s[i]);
        &&& s[i] == section_for(m, c, lines, kind)
        &&& payload_len(s[i]) > 0
        &&& wanted(!any_specified(c), patterns_for(c, kind))
        &&& applies(c, kind)
        &&& low <= place(kind) < high
    } by {
        if i < a.len() {
            assert(s[i] == a[i]);
        } else {
            assert(s[i] == b[i - a.len()]);
        }
    }
    assert forall|i: int, j: int| 0 <= i < j < s.len() implies place(kind_of(#[trigger] s[i]))
        < place(kind_of(#[trigger] s[j])) by {
        if i < a.len() {
            assert(s[i] == a[i]);
        } else {
            assert(s[i] == b[i - a.len()]);
        }
        if j < a.len() {
            assert(s[j] == a[j]);
        } else {
            assert(s[j] == b[j - a.len()]);
        }
    }
}

/// What one kind adds is well planned at the kind's place.
pub proof fn lemma_well_planned_one(
    m: ManifestModel,
    c: CliModel,
    lines: Seq<Seq<char>>,
    kind: Kind,
)
    ensures
        well_planned(part(m, c, lines, kind), m, c, lines, place(kind), place(kind) + 1),
{
    reveal(chosen);
    reveal(chosen_entries);
    reveal(part);
    reveal(well_planned);
    let one = section_for(m, c, lines, kind);
    let s = part(m, c, lines, kind);
    assert forall|i: int| 0 <= i < s.len() implies {
        let k = kind_of(#[trigger] s[i]);
        &&& s[i] == section_for(m, c, lines, k)
        &&& payload_len(s[i]) > 0
        &&& wanted(!any_specified(c), patterns_for(c, k))
        &&& applies(c, k)
        &&& place(kind) <= place(k) < place(kind) + 1
    } by {
        assert(s[i] == one);
        assert(kind_of(one) == kind);
    }
}

/// What the two kinds of system packages add is well planned at their
/// place: at most one of the two adds anything.
pub proof fn lemma_well_planned_system(m: ManifestModel, c: CliModel, lines: Seq<Seq<char>>)
    ensures
        well_planned(
            part(m, c, lines, Kind::Apt) + part(m, c, lines, Kind::Dnf),
            m,
            c,
            lines,
            2,
            3,
        ),
{
    lemma_well_planned_one(m, c, lines, Kind::Apt);
    lemma_well_planned_one(m, c, lines, Kind::Dnf);
    let apt = part(m, c, lines, Kind::Apt);
    let dnf = part(m, c, lines, Kind::Dnf);
    assert(apt.len() == 0 || dnf.len() == 0) by {
        reveal(part);
        reveal_strlit("deb");
        reveal_strlit("rpm");
        assert("deb"@[0] != "rpm"@[0]);
    }
    if apt.len() == 0 {
        assert(apt + dnf =~= dnf);
    } else {
        assert(apt + dnf =~= apt);
    }
}

/// What `planned` gives is well planned.
pub proof fn lemma_planned_well(m: ManifestModel, c: CliModel, lines: Seq<Seq<char>>)
    ensures
        well_planned(planned(m, c, lines), m, c, lines, 0, 11),
{
    let link = part(m, c, lines, Kind::Link);
    let ppa = part(m, c, lines, Kind::Ppa);
    let apt = part(m, c, lines, Kind::Apt);
    let dnf = part(m, c, lines, Kind::Dnf);
    let npm = part(m, c, lines, Kind::Npm);
    let pip3 = part(m, c, lines, Kind::Pip3);
    let pipx = part(m, c, lines, Kind::Pipx);
    let flatpak = part(m, c, lines, Kind::Flatpak);
    let cargo = part(m, c, lines, Kind::Cargo);
    let github = part(m, c, lines, Kind::Github);
    let git_crypt = part(m, c, lines, Kind::GitCrypt);
    let script = part(m, c, lines, Kind::Script);
    lemma_well_planned_one(m, c, lines, Kind::Link);
    lemma_well_planned_one(m, c, lines, Kind::Ppa);
    lemma_well_planned_system(m, c, lines);
    lemma_well_planned_one(m, c, lines, Kind::Npm);
    lemma_well_planned_one(m, c, lines, Kind::Pip3);
    lemma_well_planned_one(m, c, lines, Kind::Pipx);
    lemma_well_planned_one(m, c, lines, Kind::Flatpak);
    lemma_well_planned_one(m, c, lines, Kind::Cargo);
    lemma_well_planned_one(m, c, lines, Kind::Github);
    lemma_well_planned_one(m, c, lines, Kind::GitCrypt);
    lemma_well_planned_one(m, c, lines, Kind::Script);
    lemma_well_planned_append(link, ppa, m, c, lines, 0, 1, 2);
    lemma_well_planned_append(link + ppa, apt + dnf, m, c, lines, 0, 2, 3);
    assert(link + ppa + (apt + dnf) =~= link + ppa + apt + dnf);
    let s4 = link + ppa + apt + dnf;
    lemma_well_planned_append(s4, npm, m, c, lines, 0, 3, 4);
    lemma_well_planned_append(s4 + npm, pip3, m, c, lines, 0, 4, 5);
    lemma_well_planned_append(s4 + npm + pip3, pipx, m, c, lines, 0, 5, 6);
    lemma_well_planned_append(s4 + npm + pip3 + pipx, flatpak, m, c, lines, 0, 6, 7);
    let s8 = s4 + npm + pip3 + pipx + flatpak;
    lemma_well_planned_append(s8, cargo, m, c, lines, 0, 7, 8);
    lemma_well_planned_append(s8 + cargo, github, m, c, lines, 0, 8, 9);
    lemma_well_planned_append(s8 + cargo + github, git_crypt, m, c, lines, 0, 9, 10);
    lemma_well_planned_append(s8 + cargo + github + git_crypt, script, m, c, lines, 0, 10, 11);
}

/// In a run for named sections, a section whose flag was not given is not
/// in the script: every section of the script is one whose flag was given.
pub proof fn law_partial_run_skips_unnamed(m: ManifestModel, c: CliModel, lines: Seq<Seq<char>>)
    requires
        any_specified(c),
    ensures
        forall|i: int|
            0 <= i < planned(m, c, lines).len() ==> patterns_for(
                c,
                kind_of(#[trigger] planned(m, c, lines)[i]),
            ).len() > 0,
{
    lemma_planned_well(m, c, lines);
    reveal(well_planned);
}

/// Every section of the script holds what its own patterns select of what
/// the manifest has for its kind, and holds something; and the sections
/// stand in the order of their kinds, so that no kind has two.
pub proof fn law_sections_hold_their_selection(m: ManifestModel, c: CliModel, lines: Seq<Seq<char>>)
    ensures
        forall|i: int|
            0 <= i < planned(m, c, lines).len() ==> (#[trigger] planned(m, c, lines)[i])
                == section_for(m, c, lines, kind_of(planned(m, c, lines)[i])) && payload_len(
                planned(m, c, lines)[i],
            ) > 0,
        forall|i: int, j: int|
            0 <= i < j < planned(m, c, lines).len() ==> place(
                kind_of(#[trigger] planned(m, c, lines)[i]),
            ) < place(kind_of(#[trigger] planned(m, c, lines)[j])),
{
    lemma_planned_well(m, c, lines);
    reveal(well_planned);
}

/// A kind whose flag was not given adds nothing to a run for named
/// sections.
pub proof fn lemma_unnamed_adds_nothing(
    m: ManifestModel,
    c: CliModel,
    lines: Seq<Seq<char>>,
    kind: Kind,
)
    requires
        any_specified(c),
        patterns_for(c, kind).len() == 0,
    ensures
        part(m, c, lines, kind) == Seq::<Section>::empty(),
{
    reveal(part);
    reveal(chosen);
    reveal(chosen_entries);
}

/// In a run with the flag of exactly one kind of section, the script holds
/// the section of that kind, with what the flag's patterns select, and no
/// other section.
pub proof fn law_single_flag(m: ManifestModel, c: CliModel, lines: Seq<Seq<char>>, kind: Kind)
    requires
        patterns_for(c, kind).len() > 0,
        forall|other: Kind| other != kind ==> patterns_for(c, other).len() == 0,
    ensures
        planned(m, c, lines) == part(m, c, lines, kind),
        planned(m, c, lines) == optional(
            applies(c, kind) && payload_len(section_for(m, c, lines, kind)) > 0,
            section_for(m, c, lines, kind),
        ),
{
    if kind != Kind::Link {
        lemma_unnamed_adds_nothing(m, c, lines, Kind::Link);
    }
    if kind != Kind::Ppa {
        lemma_unnamed_adds_nothing(m, c, lines, Kind::Ppa);
    }
    if kind != Kind::Apt {
        lemma_unnamed_adds_nothing(m, c, lines, Kind::Apt);
    }
    if kind != Kind::Dnf {
        lemma_unnamed_adds_nothing(m, c, lines, Kind::Dnf);
    }
    if kind != Kind::Npm {
        lemma_unnamed_adds_nothing(m, c, lines, Kind::Npm);
    }
    if kind != Kind::Pip3 {
        lemma_unnamed_adds_nothing(m, c, lines, Kind::Pip3);
    }
    if kind != Kind::Pipx {
        lemma_unnamed_adds_nothing(m, c, lines, Kind::Pipx);
    }
    if kind != Kind::Flatpak {
        lemma_unnamed_adds_nothing(m, c, lines, Kind::Flatpak);
    }
    if kind != Kind::Cargo {
        lemma_unnamed_adds_nothing(m, c, lines, Kind::Cargo);
    }
    if kind != Kind::Github {
        lemma_unnamed_adds_nothing(m, c, lines, Kind::Github);
    }
    if kind != Kind::GitCrypt {
        lemma_unnamed_adds_nothing(m, c, lines, Kind::GitCrypt);
    }
    if kind != Kind::Script {
        lemma_unnamed_adds_nothing(m, c, lines, Kind::Script);
    }
    assert(planned(m, c, lines) =~= part(m, c, lines, kind));
    reveal(part);
}

/// The items of a section that holds a list; nothing for one that holds a
/// map.
pub open spec fn list_items(section: Section) -> Seq<Seq<char>> {
    match section {
        Section::Link(items) => items,
        Section::Ppa(items) => items,
        Section::Apt(items) => items,
        Section::Dnf(items) => items,
        Section::Npm(items) => items,
        Section::Pip3(items) => items,
        Section::Pipx(items) => items,
        Section::Flatpak(items) => items,
        Section::Cargo(items) => items,
        _ => Seq::empty(),
    }
}

/// The items of every section of the script are in the order of strings,
/// whatever order the manifest has them in.
pub proof fn law_list_sections_sorted(m: ManifestModel, c: CliModel, lines: Seq<Seq<char>>)
    ensures
        forall|i: int|
            0 <= i < planned(m, c, lines).len() ==> nondecreasing(
                list_items(#[trigger] planned(m, c, lines)[i]),
            ),
{
    lemma_planned_well(m, c, lines);
    reveal(well_planned);
    reveal(chosen);
    let all = planned(m, c, lines);
    assert forall|i: int| 0 <= i < all.len() implies nondecreasing(
        list_items(#[trigger] all[i]),
    ) by {
        let kind = kind_of(all[i]);
        law_sorted_texts_ordered(included(source_list(m, lines, kind), patterns_for(c, kind)));
    }
}

/// What stands in one of two sequences stands in the two put together.
pub proof fn lemma_contains_either(a: Seq<Section>, b: Seq<Section>, x: Section)
    requires
        a.contains(x) || b.contains(x),
    ensures
        (a + b).contains(x),
{
    if a.contains(x) {
        let i = choose|i: int| 0 <= i < a.len() && a[i] == x;
        assert((a + b)[i] == x);
    } else {
        let i = choose|i: int| 0 <= i < b.len() && b[i] == x;
        assert((a + b)[a.len() + i] == x);
    }
}

/// A kind of section that can stand in the script, and of which the
/// patterns select anything, has its section in the script.
pub proof fn law_selected_section_present(
    m: ManifestModel,
    c: CliModel,
    lines: Seq<Seq<char>>,
    kind: Kind,
)
    requires
        applies(c, kind),
        payload_len(section_for(m, c, lines, kind)) > 0,
    ensures
        planned(m, c, lines).contains(section_for(m, c, lines, kind)),
{
    let x = section_for(m, c, lines, kind);
    assert(part(m, c, lines, kind).contains(x)) by {
        reveal(part);
        assert(part(m, c, lines, kind)[0] == x);
    }
    let s1 = part(m, c, lines, Kind::Link);
    let s2 = s1 + part(m, c, lines, Kind::Ppa);
    let s3 = s2 + part(m, c, lines, Kind::Apt);
    let s4 = s3 + part(m, c, lines, Kind::Dnf);
    let s5 = s4 + part(m, c, lines, Kind::Npm);
    let s6 = s5 + part(m, c, lines, Kind::Pip3);
    let s7 = s6 + part(m, c, lines, Kind::Pipx);
    let s8 = s7 + part(m, c, lines, Kind::Flatpak);
    let s9 = s8 + part(m, c, lines, Kind::Cargo);
    let s10 = s9 + part(m, c, lines, Kind::Github);
    let s11 = s10 + part(m, c, lines, Kind::GitCrypt);
    let s12 = s11 + part(m, c, lines, Kind::Script);
    if place(kind) <= 1 {
        lemma_contains_either(s1, part(m, c, lines, Kind::Ppa), x);
    }
    if place(kind) <= 1 || kind is Apt {
        lemma_contains_either(s2, part(m, c, lines, Kind::Apt), x);
    }
    if place(kind) <= 2 {
        lemma_contains_either(s3, part(m, c, lines, Kind::Dnf), x);
    }
    if place(kind) <= 3 {
        lemma_contains_either(s4, part(m, c, lines, Kind::Npm), x);
    }
    if place(kind) <= 4 {
        lemma_contains_either(s5, part(m, c, lines, Kind::Pip3), x);
    }
    if place(kind) <= 5 {
        lemma_contains_either(s6, part(m, c, lines, Kind::Pipx), x);
    }
    if place(kind) <= 6 {
        lemma_contains_either(s7, part(m, c, lines, Kind::Flatpak), x);
    }
    if place(kind) <= 7 {
        lemma_contains_either(s8, part(m, c, lines, Kind::Cargo), x);
    }
    if place(kind) <= 8 {
        lemma_contains_either(s9, part(m, c, lines, Kind::Github), x);
    }
    if place(kind) <= 9 {
        lemma_contains_either(s10, part(m, c, lines, Kind::GitCrypt), x);
    }
    lemma_contains_either(s11, part(m, c, lines, Kind::Script), x);
}

/// In a run for the complete manifest, where no section flag was given, the
/// section of each kind holds everything that the manifest has for the kind:
/// nothing is filtered out. It is in the script unless that is nothing or
/// the kind is for another package manager.
pub proof fn law_complete_run_takes_all(
    m: ManifestModel,
    c: CliModel,
    lines: Seq<Seq<char>>,
    kind: Kind,
)
    requires
        !any_specified(c),
    ensures
        section_for(m, c, lines, kind) == whole_section(m, lines, kind),
        applies(c, kind) && payload_len(whole_section(m, lines, kind)) > 0 ==> planned(
            m,
            c,
            lines,
        ).contains(whole_section(m, lines, kind)),
{
    reveal(chosen);
    reveal(chosen_entries);
    law_empty_patterns(source_list(m, lines, kind));
    law_no_patterns(m.github.items, keys_of(m.github.items));
    law_no_patterns(m.git_crypt.items, keys_of(m.git_crypt.items));
    law_no_patterns(m.script, keys_of(m.script));
    if applies(c, kind) && payload_len(whole_section(m, lines, kind)) > 0 {
        law_selected_section_present(m, c, lines, kind);
    }
}

/// A section of a list, if the section takes part and anything is selected:
/// the selected items in the order of strings.
fn list_payload(complete: bool, items: Vec<String>, patterns: &Vec<String>) -> (r: Option<
    Vec<String>,
>)
    ensures
        r is Some <==> (chosen(complete, texts(items@), texts(patterns@)).len() > 0),
        r matches Some(v) ==> texts(v@) == chosen(complete, texts(items@), texts(patterns@)),
{
    reveal(chosen);
    if !complete && patterns.is_empty() {
        return None;
    }
    let filtered = items.include_only(patterns.as_slice());
    proof {
        lemma_sorted_texts_len(texts(filtered@));
    }
    if filtered.is_empty() {
        return None;
    }
    Some(sorted_vec(filtered.as_slice()))
}

/// A section of a map, if the section takes part and anything is selected.
fn table_payload<V: View>(complete: bool, items: Table<V>, patterns: &Vec<String>) -> (r: Option<
    Table<V>,
>)
    ensures
        r is Some <==> (chosen_entries(complete, items@, texts(patterns@)).len() > 0),
        r matches Some(t) ==> t@ == chosen_entries(complete, items@, texts(patterns@)),
{
    reveal(chosen_entries);
    if !complete && patterns.is_empty() {
        return None;
    }
    let filtered = items.include_only(patterns.as_slice());
    if filtered.is_empty() {
        return None;
    }
    Some(filtered)
}

fn applies_to(cli: &Cli, kind: Kind) -> (r: bool)
    ensures
        r == applies(cli@, kind),
{
    match kind {
        Kind::Apt => str_eq(cli.pkgmgr.as_str(), "deb"),
        Kind::Dnf => str_eq(cli.pkgmgr.as_str(), "rpm"),
        _ => true,
    }
}

fn patterns_of(cli: &Cli, kind: Kind) -> (r: &Vec<String>)
    ensures
        texts(r@) == patterns_for(cli@, kind),
{
    match kind {
        Kind::Link => &cli.link,
        Kind::Ppa => &cli.ppa,
        Kind::Apt => &cli.apt,
        Kind::Dnf => &cli.dnf,
        Kind::Npm => &cli.npm,
        Kind::Pip3 => &cli.pip3,
        Kind::Pipx => &cli.pipx,
        Kind::Flatpak => &cli.flatpak,
        Kind::Cargo => &cli.cargo,
        Kind::Github => &cli.github,
        Kind::GitCrypt => &cli.git_crypt,
        Kind::Script => &cli.script,
    }
}

fn list_source(spec: &ManifestSpec, link_lines: &Vec<String>, kind: Kind) -> (r: Vec<String>)
    requires
        !holds_map(kind),
    ensures
        texts(r@) == source_list(spec@, texts(link_lines@), kind),
{
    match kind {
        Kind::Ppa => copied(&spec.ppa.items),
        Kind::Apt => merge_pkg_apt(spec),
        Kind::Dnf => merge_pkg_dnf(spec),
        Kind::Npm => copied(&spec.npm.items),
        Kind::Pip3 => merged(&spec.pip3.items, &spec.pip3.distutils),
        Kind::Pipx => copied(&spec.pipx.items),
        Kind::Flatpak => copied(&spec.flatpak.items),
        Kind::Cargo => copied(&spec.cargo.items),
        _ => copied(link_lines),
    }
}

fn list_section_with(kind: Kind, items: Vec<String>) -> (r: ManifestType)
    requires
        !holds_map(kind),
    ensures
        r@ == list_section(kind, texts(items@)),
{
    match kind {
        Kind::Ppa => ManifestType::Ppa(items),
        Kind::Apt => ManifestType::Apt(items),
        Kind::Dnf => ManifestType::Dnf(items),
        Kind::Npm => ManifestType::Npm(items),
        Kind::Pip3 => ManifestType::Pip3(items),
        Kind::Pipx => ManifestType::Pipx(items),
        Kind::Flatpak => ManifestType::Flatpak(items),
        Kind::Cargo => ManifestType::Cargo(items),
        _ => ManifestType::Link(items),
    }
}

/// The section of a kind for this run, if the run has one.
fn section_of_kind(spec: &ManifestSpec, cli: &Cli, link_lines: &Vec<String>, kind: Kind) -> (r:
    Option<ManifestType>)
    ensures
        r is Some <==> (part(spec@, cli@, texts(link_lines@), kind).len() > 0),
        r matches Some(section) ==> part(spec@, cli@, texts(link_lines@), kind) == seq![section@],
{
    reveal(part);
    if !applies_to(cli, kind) {
        return None;
    }
    let complete = !cli.any_section_specified();
    let patterns = patterns_of(cli, kind);
    match kind {
        Kind::Github => {
            match table_payload(complete, spec.github.items.duplicate(), patterns) {
                Some(repos) => Some(ManifestType::Github(repos, spec.github.repopath.clone())),
                None => None,
            }
        },
        Kind::GitCrypt => {
            match table_payload(complete, spec.git_crypt.items.duplicate(), patterns) {
                Some(repos) => Some(
                    ManifestType::GitCrypt(repos, spec.git_crypt.repopath.clone()),
                ),
                None => None,
            }
        },
        Kind::Script => {
            match table_payload(complete, sorted_map(&spec.script.items), patterns) {
                Some(scripts) => Some(ManifestType::Script(scripts)),
                None => None,
            }
        },
        _ => {
            match list_payload(complete, list_source(spec, link_lines, kind), patterns) {
                Some(items) => Some(list_section_with(kind, items)),
                None => None,
            }
        },
    }
}

/// Adds the section of a kind to those collected, if the run has one.
fn collect(
    sections: &mut Vec<ManifestType>,
    spec: &ManifestSpec,
    cli: &Cli,
    link_lines: &Vec<String>,
    kind: Kind,
)
    ensures
        sections_of(final(sections)@) == sections_of(old(sections)@) + part(
            spec@,
            cli@,
            texts(link_lines@),
            kind,
        ),
{
    let ghost added = part(spec@, cli@, texts(link_lines@), kind);
    match section_of_kind(spec, cli, link_lines, kind) {
        Some(section) => {
            sections.push(section);
            assert(sections_of(sections@) =~= sections_of(old(sections)@) + added);
        },
        None => {
            assert(sections_of(sections@) =~= sections_of(old(sections)@) + added);
        },
    }
}

/// The sections of the script for a manifest and a command line.
/// `link_lines` are the lines of the link section, as `linkspec_to_vec`
/// gives them.
pub fn collect_sections(spec: &ManifestSpec, cli: &Cli, link_lines: Vec<String>) -> (r: Vec<
    ManifestType,
>)
    ensures
        sections_of(r@) == planned(spec@, cli@, texts(link_lines@)),
{
    let ghost lines = texts(link_lines@);
    let mut sections: Vec<ManifestType> = Vec::new();
    assert(sections_of(sections@) =~= Seq::<Section>::empty());
    collect(&mut sections, spec, cli, &link_lines, Kind::Link);
    assert(sections_of(sections@) =~= part(spec@, cli@, lines, Kind::Link));
    collect(&mut sections, spec, cli, &link_lines, Kind::Ppa);
    collect(&mut sections, spec, cli, &link_lines, Kind::Apt);
    collect(&mut sections, spec, cli, &link_lines, Kind::Dnf);
    collect(&mut sections, spec, cli, &link_lines, Kind::Npm);
    collect(&mut sections, spec, cli, &link_lines, Kind::Pip3);
    collect(&mut sections, spec, cli, &link_lines, Kind::Pipx);
    collect(&mut sections, spec, cli, &link_lines, Kind::Flatpak);
    collect(&mut sections, spec, cli, &link_lines, Kind::Cargo);
    collect(&mut sections, spec, cli, &link_lines, Kind::Github);
    collect(&mut sections, spec, cli, &link_lines, Kind::GitCrypt);
    collect(&mut sections, spec, cli, &link_lines, Kind::Script);
    sections
}

/// The lines of the link section for a run: those of the manifest's link
/// spec, with sources seen from the directory that the command line names
/// and destinations written out with the home directory of the run.
pub open spec fn run_lines(
    m: ManifestModel,
    c: CliModel,
    env_home: Option<Seq<char>>,
    walked: Seq<Seq<Seq<char>>>,
) -> Seq<Seq<char>> {
    link_lines(m.link, walked, c.path, home_text(c.home, env_home))
}

/// The home directory of the environment as a text, if there is one.
pub open spec fn home_of(env_home: Option<String>) -> Option<Seq<char>> {
    match env_home {
        Some(h) => Some(h@),
        None => None,
    }
}

/// The script for a manifest and a command line. `env_home` is the home
/// directory that the environment names, if it names one; `walked` holds,
/// for each entry of a recursive link spec in the order of the entries, the
/// files found below its directory.
pub fn generate(
    spec: &ManifestSpec,
    cli: &Cli,
    env_home: Option<String>,
    walked: &[Vec<String>],
) -> (r: String)
    ensures
        r@ == script_text(
            planned(spec@, cli@, run_lines(spec@, cli@, home_of(env_home), found(walked@))),
        ),
{
    let home = resolve_home(cli.home.as_str(), env_home);
    let lines = linkspec_to_vec(&spec.link, cli.path.as_str(), home.as_str(), walked);
    let sections = collect_sections(spec, cli, lines);
    build_script(sections.as_slice())
}

} // verus!
