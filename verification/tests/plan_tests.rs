use manifest::cli::Cli;
use manifest::config::{ManifestSpec, RepoSpec};
use manifest::manifest::{build_script, ManifestType, LATEST, LINKER, PREAMBLE};
use manifest::plan::{collect_sections, generate, merge_pkg_apt, merge_pkg_dnf};
use manifest::sorting::{sorted_map, sorted_vec};
use manifest::table::Table;

fn strings(items: &[&str]) -> Vec<String> {
    items.iter().map(|s| s.to_string()).collect()
}

fn cli(pkgmgr: &str) -> Cli {
    Cli {
        config: "manifest.yml".to_string(),
        home: String::new(),
        pkgmgr: pkgmgr.to_string(),
        link: vec![],
        ppa: vec![],
        apt: vec![],
        dnf: vec![],
        npm: vec![],
        pip3: vec![],
        pipx: vec![],
        flatpak: vec![],
        cargo: vec![],
        github: vec![],
        git_crypt: vec![],
        script: vec![],
        path: ".".to_string(),
    }
}

fn full_manifest() -> ManifestSpec {
    let mut spec = ManifestSpec::default();
    spec.ppa.items = strings(&["mkusb/ppa", "git-core/ppa"]);
    spec.pkg.items = strings(&["jq", "vim"]);
    spec.apt.items = strings(&["fuse3"]);
    spec.dnf.items = strings(&["gcc"]);
    spec.npm.items = strings(&["wt-cli", "diff-so-fancy"]);
    spec.pip3.items = strings(&["numpy", "argh"]);
    spec.pip3.distutils = strings(&["Cython"]);
    spec.pipx.items = strings(&["mypy", "doit"]);
    spec.flatpak.items = strings(&["org.gnome.GTG"]);
    spec.cargo.items = strings(&["cargo-expand", "bat"]);
    spec.github.repopath = "repos".to_string();
    spec.github.items.insert("scottidler/nvim".to_string(), RepoSpec::default());
    spec.github.items.insert("scottidler/aka".to_string(), RepoSpec::default());
    spec.git_crypt.repopath = "secrets".to_string();
    spec.git_crypt.items.insert("scottidler/keys".to_string(), RepoSpec::default());
    spec.script.items.insert("rust".to_string(), "curl https://sh.rustup.rs -sSf | sh".to_string());
    spec
}

fn names(sections: &[ManifestType]) -> Vec<&'static str> {
    sections
        .iter()
        .map(|s| match s {
            ManifestType::Link(_) => "link",
            ManifestType::Ppa(_) => "ppa",
            ManifestType::Apt(_) => "apt",
            ManifestType::Dnf(_) => "dnf",
            ManifestType::Npm(_) => "npm",
            ManifestType::Pip3(_) => "pip3",
            ManifestType::Pipx(_) => "pipx",
            ManifestType::Flatpak(_) => "flatpak",
            ManifestType::Cargo(_) => "cargo",
            ManifestType::Github(_, _) => "github",
            ManifestType::GitCrypt(_, _) => "git-crypt",
            ManifestType::Script(_) => "script",
        })
        .collect()
}

fn items_of(section: &ManifestType) -> Vec<String> {
    match section {
        ManifestType::Link(v)
        | ManifestType::Ppa(v)
        | ManifestType::Apt(v)
        | ManifestType::Dnf(v)
        | ManifestType::Npm(v)
        | ManifestType::Pip3(v)
        | ManifestType::Pipx(v)
        | ManifestType::Flatpak(v)
        | ManifestType::Cargo(v) => v.clone(),
        ManifestType::Github(t, _) | ManifestType::GitCrypt(t, _) => {
            t.as_slice().iter().map(|e| e.0.clone()).collect()
        }
        ManifestType::Script(t) => t.as_slice().iter().map(|e| e.0.clone()).collect(),
    }
}

#[test]
fn sorted_vec_sorts_like_the_standard_library() {
    let items = strings(&["vim", "jq", "htop", "Zsh", "", "jq", "a\u{e9}", "ab"]);
    let mut expected = items.clone();
    expected.sort();
    assert_eq!(sorted_vec(&items), expected);
    assert_eq!(sorted_vec(&items), strings(&["", "Zsh", "ab", "a\u{e9}", "htop", "jq", "jq", "vim"]));
    assert_eq!(sorted_vec(&[]), Vec::<String>::new());
}

#[test]
fn sorted_map_holds_the_same_entries() {
    let mut map = Table::new();
    map.insert("rust".to_string(), "r".to_string());
    map.insert("docker".to_string(), "d".to_string());
    let sorted = sorted_map(&map);
    assert_eq!(sorted, map);
    let keys: Vec<&str> = sorted.as_slice().iter().map(|e| e.0.as_str()).collect();
    assert_eq!(keys, vec!["docker", "rust"]);
}

#[test]
fn generic_packages_come_before_the_managers_own() {
    let spec = full_manifest();
    assert_eq!(merge_pkg_apt(&spec), strings(&["jq", "vim", "fuse3"]));
    assert_eq!(merge_pkg_dnf(&spec), strings(&["jq", "vim", "gcc"]));
    let empty = ManifestSpec::default();
    assert!(merge_pkg_apt(&empty).is_empty());
    assert!(merge_pkg_dnf(&empty).is_empty());
}

#[test]
fn a_complete_run_takes_every_section() {
    let spec = full_manifest();
    let lines = strings(&["b/src b/dst", "a/src a/dst"]);
    let sections = collect_sections(&spec, &cli("deb"), lines);
    assert_eq!(
        names(&sections),
        vec![
            "link", "ppa", "apt", "npm", "pip3", "pipx", "flatpak", "cargo", "github", "git-crypt",
            "script"
        ]
    );
    assert_eq!(items_of(&sections[0]), strings(&["a/src a/dst", "b/src b/dst"]));
    assert_eq!(items_of(&sections[1]), strings(&["git-core/ppa", "mkusb/ppa"]));
    assert_eq!(items_of(&sections[2]), strings(&["fuse3", "jq", "vim"]));
    assert_eq!(items_of(&sections[3]), strings(&["diff-so-fancy", "wt-cli"]));
    assert_eq!(items_of(&sections[4]), strings(&["Cython", "argh", "numpy"]));
    assert_eq!(items_of(&sections[5]), strings(&["doit", "mypy"]));
    assert_eq!(items_of(&sections[6]), strings(&["org.gnome.GTG"]));
    assert_eq!(items_of(&sections[7]), strings(&["bat", "cargo-expand"]));
    assert_eq!(items_of(&sections[8]), strings(&["scottidler/aka", "scottidler/nvim"]));
    assert_eq!(items_of(&sections[9]), strings(&["scottidler/keys"]));
    assert_eq!(items_of(&sections[10]), strings(&["rust"]));
    match (&sections[8], &sections[9]) {
        (ManifestType::Github(_, a), ManifestType::GitCrypt(_, b)) => {
            assert_eq!(a, "repos");
            assert_eq!(b, "secrets");
        }
        _ => unreachable!(),
    }
}

#[test]
fn the_package_manager_picks_the_system_section() {
    let spec = full_manifest();
    let sections = collect_sections(&spec, &cli("rpm"), vec![]);
    assert_eq!(
        names(&sections),
        vec![
            "ppa", "dnf", "npm", "pip3", "pipx", "flatpak", "cargo", "github", "git-crypt",
            "script"
        ]
    );
    assert_eq!(items_of(&sections[1]), strings(&["gcc", "jq", "vim"]));
    let sections = collect_sections(&spec, &cli("brew"), vec![]);
    assert_eq!(
        names(&sections),
        vec!["ppa", "npm", "pip3", "pipx", "flatpak", "cargo", "github", "git-crypt", "script"]
    );
}

#[test]
fn empty_sections_are_left_out() {
    let mut spec = ManifestSpec::default();
    spec.cargo.items = strings(&["bat"]);
    let sections = collect_sections(&spec, &cli("deb"), vec![]);
    assert_eq!(names(&sections), vec!["cargo"]);
    let nothing = collect_sections(&ManifestSpec::default(), &cli("deb"), vec![]);
    assert!(nothing.is_empty());
}

#[test]
fn one_flag_with_values_leaves_only_that_section() {
    let spec = full_manifest();
    let mut options = cli("deb");
    options.cargo = strings(&["bat"]);
    let sections = collect_sections(&spec, &options, strings(&["a b"]));
    assert_eq!(names(&sections), vec!["cargo"]);
    assert_eq!(items_of(&sections[0]), strings(&["bat"]));
}

#[test]
fn a_flag_without_values_takes_the_whole_section() {
    let spec = full_manifest();
    let mut options = cli("deb");
    options.npm = strings(&["*"]);
    let sections = collect_sections(&spec, &options, vec![]);
    assert_eq!(names(&sections), vec!["npm"]);
    assert_eq!(items_of(&sections[0]), strings(&["diff-so-fancy", "wt-cli"]));
}

#[test]
fn a_flag_that_selects_nothing_leaves_no_section() {
    let spec = full_manifest();
    let mut options = cli("deb");
    options.cargo = strings(&["no-such-crate"]);
    assert!(collect_sections(&spec, &options, vec![]).is_empty());
}

#[test]
fn flags_of_several_sections() {
    let spec = full_manifest();
    let mut options = cli("deb");
    options.script = strings(&["rust"]);
    options.apt = strings(&["vim", "fuse"]);
    options.github = strings(&["aka"]);
    options.link = strings(&["*"]);
    let sections = collect_sections(&spec, &options, strings(&["s d"]));
    assert_eq!(names(&sections), vec!["link", "apt", "github", "script"]);
    // `vim` matches exactly, so the prefix `fuse` is not tried.
    assert_eq!(items_of(&sections[1]), strings(&["vim"]));
    assert_eq!(items_of(&sections[2]), strings(&["scottidler/aka"]));
}

#[test]
fn a_flag_for_the_other_package_manager_leaves_nothing() {
    let spec = full_manifest();
    let mut options = cli("deb");
    options.dnf = strings(&["*"]);
    assert!(collect_sections(&spec, &options, vec![]).is_empty());
}

#[test]
fn the_manifest_is_left_as_it_was() {
    let spec = full_manifest();
    let _ = collect_sections(&spec, &cli("deb"), vec![]);
    assert_eq!(spec.cargo.items, strings(&["cargo-expand", "bat"]));
    assert_eq!(spec.github.items.len(), 2);
}

#[test]
fn apt_packages_end_to_end() {
    let mut spec = ManifestSpec::default();
    spec.apt.items = strings(&["jq", "vim", "htop"]);
    let script = generate(&spec, &cli("deb"), None, &[]);
    let expected = format!(
        "{}{}",
        PREAMBLE,
        "echo \"apts:\"\n\
         sudo apt update && sudo apt upgrade -y && sudo apt install -y software-properties-common\n\
         sudo apt install -y htop \\\n    jq \\\n    vim\n"
    );
    assert_eq!(script, expected);
    assert_eq!(script.matches("sudo apt install -y htop").count(), 1);
    assert!(script.starts_with("#!/bin/bash\n"));
}

#[test]
fn github_repository_end_to_end() {
    let mut repo = RepoSpec::default();
    repo.cargo = strings(&["./"]);
    repo.link.items.insert("bin/aka.zsh".to_string(), "~/.config/aka/aka.zsh".to_string());
    let mut spec = ManifestSpec::default();
    spec.apt.items = strings(&["jq"]);
    spec.github.repopath = "repos".to_string();
    spec.github.items.insert("scottidler/aka".to_string(), repo);
    let mut options = cli("deb");
    options.github = strings(&["*"]);
    let script = generate(&spec, &options, None, &[]);
    let expected = format!(
        "{}{}\n{}",
        PREAMBLE,
        LINKER,
        "echo \"github repos:\"\n\
         echo \"scottidler/aka:\"\n\
         git clone --recursive https://github.com/scottidler/aka $HOME/repos/scottidler/aka \n\
         (cd $HOME/repos/scottidler/aka && pwd && git pull && git checkout HEAD)\n\
         echo \"cargo install (path):\"\n\
         echo \"Installing from $HOME/repos/scottidler/aka/./\"\n\
         (cd $HOME/repos/scottidler/aka/./ && cargo install --path .)\n\
         echo \"links:\"\n\
         while read -r file link; do\n    linker $file $link\ndone<<EOM\n\
         $HOME/repos/scottidler/aka/bin/aka.zsh ~/.config/aka/aka.zsh\n\
         EOM\n"
    );
    assert_eq!(script, expected);
    assert!(script.contains("git clone --recursive https://github.com/scottidler/aka"));
    assert!(script.contains("cargo install --path"));
    assert!(script.contains("~/.config/aka/aka.zsh"));
    assert!(!script.contains("apt"));
}

#[test]
fn generate_is_build_script_of_the_collected_sections() {
    let mut spec = full_manifest();
    spec.link.items.insert("HOME/.zshrc".to_string(), "$HOME/.zshrc".to_string());
    let mut options = cli("rpm");
    options.path = "/dots".to_string();
    let lines = strings(&["/dots/HOME/.zshrc /home/x/.zshrc"]);
    let sections = collect_sections(&spec, &options, lines);
    assert_eq!(
        generate(&spec, &options, Some("/home/x".to_string()), &[]),
        build_script(&sections)
    );
}

#[test]
fn generate_links_the_files_found_below_a_directory() {
    let mut spec = ManifestSpec::default();
    spec.link.recursive = true;
    spec.link.items.insert("HOME".to_string(), "$HOME".to_string());
    let mut options = cli("deb");
    options.home = "/home/named".to_string();
    let walked = vec![strings(&[".zshrc", ".config/git/config"])];
    let script = generate(&spec, &options, Some("/home/env".to_string()), &walked);
    let expected = format!(
        "{}{}\n{}",
        PREAMBLE,
        LINKER,
        "echo \"links:\"\nwhile read -r file link; do\n    linker $file $link\ndone<<EOM\n\
         ./HOME/.config/git/config /home/named/.config/git/config\n\
         ./HOME/.zshrc /home/named/.zshrc\n\
         EOM\n"
    );
    assert_eq!(script, expected);
}

#[test]
fn the_same_input_gives_the_same_script() {
    let one = generate(&full_manifest(), &cli("deb"), None, &[]);
    let mut shuffled = full_manifest();
    shuffled.github.items = Table::new();
    shuffled.github.items.insert("scottidler/aka".to_string(), RepoSpec::default());
    shuffled.github.items.insert("scottidler/nvim".to_string(), RepoSpec::default());
    shuffled.cargo.items.reverse();
    let other = generate(&shuffled, &cli("deb"), None, &[]);
    assert_eq!(one, other);
    assert!(one.contains(LATEST));
}
