use manifest::config::{LinkSpec, RepoSpec};
use manifest::manifest::{
    build_script, render_continue, render_github, render_gitcrypt, render_heredoc,
    render_repo_cargo_install, render_repo_links, render_script, ManifestType, GITCRYPT_GUARD,
    LATEST, LINKER, PREAMBLE,
};
use manifest::table::Table;

#[test]
fn test_manifest_type_link_render() {
    let items = vec![
        "src1 dst1".to_string(),
        "src2 dst2".to_string(),
    ];
    let manifest_type = ManifestType::Link(items);
    let rendered = manifest_type.render();

    assert!(rendered.contains("echo \"links:\""));
    assert!(rendered.contains("while read -r file link; do"));
    assert!(rendered.contains("linker $file $link"));
    assert!(rendered.contains("src1 dst1"));
    assert!(rendered.contains("src2 dst2"));
    assert!(rendered.contains("done<<EOM"));
}

#[test]
fn test_manifest_type_ppa_render() {
    let items = vec![
        "git-core/ppa".to_string(),
        "mkusb/ppa".to_string(),
    ];
    let manifest_type = ManifestType::Ppa(items);
    let rendered = manifest_type.render();

    assert!(rendered.contains("echo \"ppas:\""));
    assert!(rendered.contains("while read -r file link; do"));
    assert!(rendered.contains("ppas=$(somecheck)"));
    assert!(rendered.contains("if [[ $ppas != *\"$pkg\"* ]]; then"));
    assert!(rendered.contains("sudo add-apt-repository -y \"ppa:$pkg\""));
    assert!(rendered.contains("git-core/ppa"));
    assert!(rendered.contains("mkusb/ppa"));
}

#[test]
fn test_manifest_type_apt_render() {
    let items = vec![
        "fuse3".to_string(),
        "ldap-utils".to_string(),
        "fonts-powerline".to_string(),
    ];
    let manifest_type = ManifestType::Apt(items);
    let rendered = manifest_type.render();

    assert!(rendered.contains("echo \"apts:\""));
    assert!(rendered.contains("sudo apt update && sudo apt upgrade -y"));
    assert!(rendered.contains("sudo apt install -y software-properties-common"));
    assert!(rendered.contains("sudo apt install -y fuse3 \\"));
    assert!(rendered.contains("ldap-utils \\"));
    assert!(rendered.contains("fonts-powerline"));
}

#[test]
fn test_manifest_type_dnf_render() {
    let items = vec![
        "the_silver_searcher".to_string(),
        "gcc".to_string(),
    ];
    let manifest_type = ManifestType::Dnf(items);
    let rendered = manifest_type.render();

    assert!(rendered.contains("echo \"dnf packages:\""));
    assert!(rendered.contains("sudo dnf install -y the_silver_searcher \\"));
    assert!(rendered.contains("gcc"));
}

#[test]
fn test_manifest_type_npm_render() {
    let items = vec![
        "diff-so-fancy".to_string(),
        "wt-cli".to_string(),
    ];
    let manifest_type = ManifestType::Npm(items);
    let rendered = manifest_type.render();

    assert!(rendered.contains("echo \"npm packages:\""));
    assert!(rendered.contains("sudo npm install -g diff-so-fancy \\"));
    assert!(rendered.contains("wt-cli"));
}

#[test]
fn test_manifest_type_pip3_render() {
    let items = vec![
        "argh".to_string(),
        "numpy".to_string(),
        "twine".to_string(),
    ];
    let manifest_type = ManifestType::Pip3(items);
    let rendered = manifest_type.render();

    assert!(rendered.contains("echo \"pip3 packages:\""));
    assert!(rendered.contains("sudo apt-get install -y python3-dev"));
    assert!(rendered.contains("sudo -H pip3 install --upgrade pip setuptools"));
    assert!(rendered.contains("sudo -H pip3 install --upgrade argh \\"));
    assert!(rendered.contains("numpy \\"));
    assert!(rendered.contains("twine"));
}

#[test]
fn test_manifest_type_pipx_render() {
    let items = vec![
        "doit".to_string(),
        "mypy".to_string(),
    ];
    let manifest_type = ManifestType::Pipx(items);
    let rendered = manifest_type.render();

    assert!(rendered.contains("echo \"pipx:\""));
    assert!(rendered.contains("while read -r file link; do"));
    assert!(rendered.contains("pipx install \"$pkg\""));
    assert!(rendered.contains("doit"));
    assert!(rendered.contains("mypy"));
}

#[test]
fn test_manifest_type_flatpak_render() {
    let items = vec![
        "org.gnome.GTG".to_string(),
        "org.gnome.BreakTimer".to_string(),
    ];
    let manifest_type = ManifestType::Flatpak(items);
    let rendered = manifest_type.render();

    assert!(rendered.contains("echo \"flatpaks:\""));
    assert!(rendered.contains("flatpak install --assumeyes --or-update org.gnome.GTG \\"));
    assert!(rendered.contains("org.gnome.BreakTimer"));
}

#[test]
fn test_manifest_type_cargo_render() {
    let items = vec![
        "bat".to_string(),
        "cargo-expand".to_string(),
    ];
    let manifest_type = ManifestType::Cargo(items);
    let rendered = manifest_type.render();

    assert!(rendered.contains("echo \"cargo crates:\""));
    assert!(rendered.contains("cargo install bat \\"));
    assert!(rendered.contains("cargo-expand"));
}

#[test]
fn test_manifest_type_script_render() {
    let mut items = Table::new();
    items.insert("rust".to_string(), "curl https://sh.rustup.rs -sSf | sh".to_string());
    items.insert("docker".to_string(), "curl -fsSL https://download.docker.com/linux/ubuntu/gpg | sudo apt-key add -\nsudo add-apt-repository \"deb [arch=amd64] https://download.docker.com/linux/ubuntu $(lsb_release -cs) stable\"".to_string());

    let manifest_type = ManifestType::Script(items);
    let rendered = manifest_type.render();

    assert!(rendered.contains("echo \"scripts:\""));
    assert!(rendered.contains("echo \"rust:\"") || rendered.contains("echo \"docker:\""));
    assert!(rendered.contains("curl https://sh.rustup.rs -sSf | sh"));
    assert!(rendered.contains("curl -fsSL https://download.docker.com/linux/ubuntu/gpg"));
}

#[test]
fn test_manifest_type_github_render() {
    let mut items = Table::new();
    let mut repo_spec = RepoSpec::default();
    repo_spec.cargo = vec!["./".to_string()];
    repo_spec.link.items.insert("bin/test".to_string(), "~/bin/test".to_string());
    repo_spec.script.items.insert("setup".to_string(), "echo 'Setting up test repo'".to_string());
    items.insert("scottidler/test".to_string(), repo_spec);

    let manifest_type = ManifestType::Github(items, "repos".to_string());
    let rendered = manifest_type.render();

    assert!(rendered.contains("echo \"github repos:\""));
    assert!(rendered.contains("echo \"scottidler/test:\""));
    assert!(rendered.contains("git clone --recursive https://github.com/scottidler/test"));
    assert!(rendered.contains("cargo install --path"));
    assert!(rendered.contains("linker"));
    assert!(rendered.contains("echo \"setup:\""));
    assert!(rendered.contains("Setting up test repo"));
}

#[test]
fn test_manifest_type_git_crypt_render() {
    let mut items = Table::new();
    let mut repo_spec = RepoSpec::default();
    repo_spec.link.items.insert("ssh/id_rsa".to_string(), "~/.ssh/id_rsa".to_string());
    repo_spec.link.items.insert("gpg/private.asc".to_string(), "~/.gnupg/private.asc".to_string());
    repo_spec.script.items.insert("post_unlock".to_string(), "chmod 600 ~/.ssh/id_rsa\ngpg --import ~/.gnupg/private.asc".to_string());
    items.insert("scottidler/secrets".to_string(), repo_spec);

    let manifest_type = ManifestType::GitCrypt(items, "repos".to_string());
    let rendered = manifest_type.render();

    assert!(rendered.contains("echo \"git-crypt repos:\""));
    assert!(rendered.contains("if ! hash git-crypt >/dev/null 2>&1; then"));
    assert!(rendered.contains("Error: git-crypt not found"));
    assert!(rendered.contains("if [[ -z \"${GIT_CRYPT_PASSWORD}\" ]]; then"));
    assert!(rendered.contains("Error: GIT_CRYPT_PASSWORD environment variable not set"));
    assert!(rendered.contains("echo \"scottidler/secrets:\""));
    assert!(rendered.contains("git clone --recursive https://github.com/scottidler/secrets"));
    assert!(rendered.contains("echo \"$GIT_CRYPT_PASSWORD\" | git-crypt unlock -"));
    assert!(rendered.contains("linker"));
    assert!(rendered.contains("~/.ssh/id_rsa"));
    assert!(rendered.contains("~/.gnupg/private.asc"));
    assert!(rendered.contains("chmod 600 ~/.ssh/id_rsa"));
    assert!(rendered.contains("gpg --import ~/.gnupg/private.asc"));
}

#[test]
fn test_manifest_type_functions() {
    let link_type = ManifestType::Link(vec![]);
    assert_eq!(link_type.functions(), LINKER);

    let github_type = ManifestType::Github(Table::new(), "repos".to_string());
    assert_eq!(github_type.functions(), LINKER);

    let gitcrypt_type = ManifestType::GitCrypt(Table::new(), "repos".to_string());
    assert_eq!(gitcrypt_type.functions(), LINKER);

    let script_type = ManifestType::Script(Table::new());
    assert_eq!(script_type.functions(), LATEST);

    let apt_type = ManifestType::Apt(vec![]);
    assert_eq!(apt_type.functions(), "");

    let cargo_type = ManifestType::Cargo(vec![]);
    assert_eq!(cargo_type.functions(), "");
}

#[test]
fn test_render_heredoc() {
    let header = "echo \"test:\"";
    let block = "echo $file $link";
    let items = vec!["item1 value1".to_string(), "item2 value2".to_string()];

    let result = render_heredoc(header, block, &items);

    assert!(result.contains("echo \"test:\""));
    assert!(result.contains("while read -r file link; do"));
    assert!(result.contains("echo $file $link"));
    assert!(result.contains("done<<EOM"));
    assert!(result.contains("item1 value1"));
    assert!(result.contains("item2 value2"));
    assert!(result.contains("EOM"));
}

#[test]
fn test_render_heredoc_empty_header() {
    let header = "";
    let block = "echo $file $link";
    let items = vec!["item1 value1".to_string()];

    let result = render_heredoc(header, block, &items);

    assert!(!result.contains("echo \"test:\""));
    assert!(result.contains("while read -r file link; do"));
    assert!(result.contains("echo $file $link"));
    assert!(result.contains("item1 value1"));
}

#[test]
fn test_render_continue() {
    let header = "echo \"packages:\"";
    let block = "sudo apt install -y";
    let items = vec!["package1".to_string(), "package2".to_string(), "package3".to_string()];

    let result = render_continue(header, block, &items);

    assert!(result.contains("echo \"packages:\""));
    assert!(result.contains("sudo apt install -y package1 \\"));
    assert!(result.contains("package2 \\"));
    assert!(result.contains("package3"));
    assert!(!result.contains("package3 \\"));
}

#[test]
fn test_render_repo_links() {
    let mut link_spec = LinkSpec::default();
    link_spec.items.insert("bin/tool".to_string(), "~/bin/tool".to_string());
    link_spec.items.insert("config/tool.conf".to_string(), "~/.config/tool.conf".to_string());

    let result = render_repo_links("$HOME/repos/test", &link_spec);

    assert!(result.contains("echo \"links:\""));
    assert!(result.contains("$HOME/repos/test/bin/tool ~/bin/tool"));
    assert!(result.contains("$HOME/repos/test/config/tool.conf ~/.config/tool.conf"));
    assert!(result.contains("linker $file $link"));
}

#[test]
fn test_render_repo_links_empty() {
    let link_spec = LinkSpec::default();
    let result = render_repo_links("$HOME/repos/test", &link_spec);
    assert!(result.is_empty());
}

#[test]
fn test_render_repo_cargo_install() {
    let paths = vec!["./".to_string(), "subdir".to_string()];
    let result = render_repo_cargo_install("$HOME/repos/test", &paths);

    assert!(result.contains("echo \"cargo install (path):\""));
    assert!(result.contains("echo \"Installing from $HOME/repos/test/./\""));
    assert!(result.contains("(cd $HOME/repos/test/./ && cargo install --path .)"));
    assert!(result.contains("echo \"Installing from $HOME/repos/test/subdir\""));
    assert!(result.contains("(cd $HOME/repos/test/subdir && cargo install --path .)"));
}

#[test]
fn test_render_repo_cargo_install_empty() {
    let paths = vec![];
    let result = render_repo_cargo_install("$HOME/repos/test", &paths);
    assert!(result.is_empty());
}

#[test]
fn test_render_github() {
    let mut items = Table::new();
    let mut repo_spec1 = RepoSpec::default();
    repo_spec1.cargo = vec!["./".to_string()];
    repo_spec1.link.items.insert("bin/tool1".to_string(), "~/bin/tool1".to_string());
    repo_spec1.script.items.insert("setup".to_string(), "echo 'Setting up tool1'".to_string());

    let mut repo_spec2 = RepoSpec::default();
    repo_spec2.cargo = vec!["subdir".to_string()];
    repo_spec2.link.items.insert("bin/tool2".to_string(), "~/bin/tool2".to_string());

    items.insert("user/repo1".to_string(), repo_spec1);
    items.insert("user/repo2".to_string(), repo_spec2);

    let result = render_github(&items, "repos");

    assert!(result.contains("echo \"github repos:\""));
    assert!(result.contains("echo \"user/repo1:\"") || result.contains("echo \"user/repo2:\""));
    assert!(result.contains("git clone --recursive https://github.com/user/repo1"));
    assert!(result.contains("git clone --recursive https://github.com/user/repo2"));
    assert!(result.contains("cargo install --path"));
    assert!(result.contains("linker"));
    assert!(result.contains("Setting up tool1"));
}

#[test]
fn test_render_script() {
    let mut items = Table::new();
    items.insert("script1".to_string(), "echo 'Running script1'\necho 'Done'".to_string());
    items.insert("script2".to_string(), "echo 'Running script2'".to_string());

    let result = render_script(&items);

    assert!(result.contains("echo \"scripts:\""));
    assert!(result.contains("echo \"script1:\"") || result.contains("echo \"script2:\""));
    assert!(result.contains("Running script1") || result.contains("Running script2"));
}

#[test]
fn test_render_script_empty() {
    let items = Table::new();
    let result = render_script(&items);
    assert!(result.is_empty());
}

#[test]
fn test_build_script_empty() {
    let sections = vec![];
    let result = build_script(&sections);

    assert!(result.contains("#!/bin/bash"));
    assert!(result.contains("# generated file by manifest"));
    assert!(result.contains("# src: https://github.com/scottidler/manifest"));
    assert!(result.contains("if [ -n \"$DEBUG\" ]; then"));
    assert!(result.contains("PS4=':${LINENO}+'"));
    assert!(result.contains("set -x"));
    assert!(result.contains("fi"));
}

#[test]
fn test_build_script_with_functions() {
    let sections = vec![
        ManifestType::Link(vec!["src dst".to_string()]),
        ManifestType::Script(Table::from_pairs(vec![("test".to_string(), "echo test".to_string())])),
    ];
    let result = build_script(&sections);

    assert!(result.contains("#!/bin/bash"));
    assert!(result.contains("# generated file by manifest"));

    assert!(result.contains("linker() {"));
    assert!(result.contains("latest() {"));

    assert!(result.contains("echo \"links:\""));
    assert!(result.contains("echo \"scripts:\""));
}

#[test]
fn test_build_script_deduplicates_functions() {
    let sections = vec![
        ManifestType::Link(vec!["src1 dst1".to_string()]),
        ManifestType::Github(Table::new(), "repos".to_string()),
        ManifestType::Link(vec!["src2 dst2".to_string()]),
    ];
    let result = build_script(&sections);

    let linker_count = result.matches("linker() {").count();
    assert_eq!(linker_count, 1);
}

#[test]
fn test_build_script_removes_leading_newline_from_first_section() {
    let sections = vec![
        ManifestType::Apt(vec!["package1".to_string()]),
    ];
    let result = build_script(&sections);

    let lines: Vec<&str> = result.lines().collect();
    let debug_end_idx = lines.iter().position(|&line| line == "fi").unwrap();

    assert!(lines[debug_end_idx + 2].contains("echo \"apts:\""));
}

#[test]
fn test_integration_with_repo_nested_scripts() {
    let mut repo_spec = RepoSpec::default();
    repo_spec.script.items.insert("post_install".to_string(), "echo 'Post install script'\nchmod +x ~/bin/tool".to_string());
    repo_spec.script.items.insert("configure".to_string(), "echo 'Configuration script'\n~/bin/tool --setup".to_string());

    let mut github_items = Table::new();
    github_items.insert("user/repo".to_string(), repo_spec);

    let github_type = ManifestType::Github(github_items, "repos".to_string());
    let rendered = github_type.render();

    assert!(rendered.contains("echo \"scripts:\""));
    assert!(rendered.contains("echo \"post_install:\"") || rendered.contains("echo \"configure:\""));
    assert!(rendered.contains("Post install script") || rendered.contains("Configuration script"));
    assert!(rendered.contains("chmod +x ~/bin/tool") || rendered.contains("~/bin/tool --setup"));
}

fn strings(items: &[&str]) -> Vec<String> {
    items.iter().map(|s| s.to_string()).collect()
}

#[test]
fn heredoc_text_in_full() {
    let text = render_heredoc("echo \"test:\"", "run $file $link", &strings(&["a b", "c d"]));
    assert_eq!(
        text,
        "\necho \"test:\"\nwhile read -r file link; do\n    run $file $link\ndone<<EOM\na b\nc d\nEOM\n"
    );
}

#[test]
fn heredoc_text_without_header_or_items() {
    let text = render_heredoc("", "run", &[]);
    assert_eq!(text, "while read -r file link; do\n    run\ndone<<EOM\n\nEOM\n");
}

#[test]
fn continuation_text_in_full() {
    let text = render_continue("echo \"packages:\"", "install", &strings(&["a", "b", "c"]));
    assert_eq!(text, "\necho \"packages:\"\ninstall a \\\n    b \\\n    c\n");
    let one = render_continue("h", "install", &strings(&["a"]));
    assert_eq!(one, "\nh\ninstall a\n");
    let none = render_continue("h", "install", &[]);
    assert_eq!(none, "\nh\ninstall \n");
}

#[test]
fn every_list_section_in_full() {
    let items = strings(&["x", "y"]);
    assert_eq!(
        ManifestType::Link(items.clone()).render(),
        "\necho \"links:\"\nwhile read -r file link; do\n    linker $file $link\ndone<<EOM\nx\ny\nEOM\n"
    );
    assert_eq!(
        ManifestType::Ppa(items.clone()).render(),
        "\necho \"ppas:\"\nwhile read -r file link; do\n    ppas=$(somecheck)\nif [[ $ppas != *\"$pkg\"* ]]; then\n  sudo add-apt-repository -y \"ppa:$pkg\"\nfi\ndone<<EOM\nx\ny\nEOM\n"
    );
    assert_eq!(
        ManifestType::Pipx(items.clone()).render(),
        "\necho \"pipx:\"\nwhile read -r file link; do\n    pipx install \"$pkg\"\ndone<<EOM\nx\ny\nEOM\n"
    );
    assert_eq!(
        ManifestType::Apt(items.clone()).render(),
        "\necho \"apts:\"\nsudo apt update && sudo apt upgrade -y && sudo apt install -y software-properties-common\nsudo apt install -y x \\\n    y\n"
    );
    assert_eq!(
        ManifestType::Dnf(items.clone()).render(),
        "\necho \"dnf packages:\"\nsudo dnf install -y x \\\n    y\n"
    );
    assert_eq!(
        ManifestType::Npm(items.clone()).render(),
        "\necho \"npm packages:\"\nsudo npm install -g x \\\n    y\n"
    );
    assert_eq!(
        ManifestType::Pip3(items.clone()).render(),
        "\necho \"pip3 packages:\"\nsudo apt-get install -y python3-dev\nsudo -H pip3 install --upgrade pip setuptools\nsudo -H pip3 install --upgrade x \\\n    y\n"
    );
    assert_eq!(
        ManifestType::Flatpak(items.clone()).render(),
        "\necho \"flatpaks:\"\nflatpak install --assumeyes --or-update x \\\n    y\n"
    );
    assert_eq!(
        ManifestType::Cargo(items).render(),
        "\necho \"cargo crates:\"\ncargo install x \\\n    y\n"
    );
}

#[test]
fn scripts_in_full_and_in_key_order() {
    let mut scripts = Table::new();
    scripts.insert("rust".to_string(), "install rust".to_string());
    scripts.insert("docker".to_string(), "install docker\nstart docker".to_string());
    assert_eq!(
        render_script(&scripts),
        "echo \"scripts:\"\necho \"docker:\"\ninstall docker\nstart docker\necho \"rust:\"\ninstall rust"
    );
    assert_eq!(ManifestType::Script(scripts.clone()).render(), render_script(&scripts));
}

#[test]
fn repo_links_in_full() {
    let mut link = LinkSpec::default();
    link.items.insert("config/tool.conf".to_string(), "~/.config/tool.conf".to_string());
    link.items.insert("./bin/tool".to_string(), "~/bin/tool".to_string());
    assert_eq!(
        render_repo_links("$HOME/repos/test", &link),
        "echo \"links:\"\nwhile read -r file link; do\n    linker $file $link\ndone<<EOM\n$HOME/repos/test/bin/tool ~/bin/tool\n$HOME/repos/test/config/tool.conf ~/.config/tool.conf\nEOM\n"
    );
}

#[test]
fn recursive_repo_links_without_items_still_give_the_loop() {
    let mut link = LinkSpec::default();
    link.recursive = true;
    assert_eq!(
        render_repo_links("$HOME/repos/test", &link),
        "echo \"links:\"\nwhile read -r file link; do\n    linker $file $link\ndone<<EOM\n\nEOM\n"
    );
}

#[test]
fn repo_cargo_install_in_full() {
    assert_eq!(
        render_repo_cargo_install("$HOME/r", &strings(&["./", "sub"])),
        "echo \"cargo install (path):\"\necho \"Installing from $HOME/r/./\"\n(cd $HOME/r/./ && cargo install --path .)\necho \"Installing from $HOME/r/sub\"\n(cd $HOME/r/sub && cargo install --path .)\n"
    );
}

#[test]
fn github_section_in_full_and_in_key_order() {
    let mut items = Table::new();
    let mut second = RepoSpec::default();
    second.script.items.insert("setup".to_string(), "make".to_string());
    items.insert("user/repo2".to_string(), second);
    items.insert("user/repo1".to_string(), RepoSpec::default());
    assert_eq!(
        render_github(&items, "repos"),
        "\necho \"github repos:\"\n\
         echo \"user/repo1:\"\n\
         git clone --recursive https://github.com/user/repo1 $HOME/repos/user/repo1 \n\
         (cd $HOME/repos/user/repo1 && pwd && git pull && git checkout HEAD)\n\
         \n\
         echo \"user/repo2:\"\n\
         git clone --recursive https://github.com/user/repo2 $HOME/repos/user/repo2 \n\
         (cd $HOME/repos/user/repo2 && pwd && git pull && git checkout HEAD)\n\
         echo \"scripts:\"\necho \"setup:\"\nmake"
    );
}

#[test]
fn github_section_without_repositories() {
    let items: Table<RepoSpec> = Table::new();
    assert_eq!(render_github(&items, "repos"), "\necho \"github repos:\"\n");
}

#[test]
fn gitcrypt_section_begins_with_the_guard() {
    let heading = "\necho \"git-crypt repos:\"\n";
    for count in 0..3 {
        let mut items = Table::new();
        for i in 0..count {
            items.insert(format!("user/secret{}", i), RepoSpec::default());
        }
        let text = render_gitcrypt(&items, "repos");
        assert!(text.starts_with(&format!("{}{}", heading, GITCRYPT_GUARD)));
        assert_eq!(text.matches("git-crypt unlock -").count(), count);
        assert_eq!(ManifestType::GitCrypt(items, "repos".to_string()).render(), text);
    }
    assert!(GITCRYPT_GUARD.starts_with("if ! hash git-crypt >/dev/null 2>&1; then\n"));
    assert!(GITCRYPT_GUARD.contains("if [[ -z \"${GIT_CRYPT_PASSWORD}\" ]]; then\n"));
}

#[test]
fn gitcrypt_repository_in_full() {
    let mut items = Table::new();
    let mut repo = RepoSpec::default();
    repo.cargo = strings(&["cli"]);
    items.insert("user/secrets".to_string(), repo);
    let text = render_gitcrypt(&items, "vault");
    let expected = format!(
        "\necho \"git-crypt repos:\"\n{}{}",
        GITCRYPT_GUARD,
        "echo \"user/secrets:\"\n\
         git clone --recursive https://github.com/user/secrets $HOME/vault/user/secrets \n\
         (cd $HOME/vault/user/secrets && pwd && git pull && git checkout HEAD)\n\
         if ! (cd $HOME/vault/user/secrets && echo \"$GIT_CRYPT_PASSWORD\" | git-crypt unlock -); then\n\
         \x20 echo \"Error: Failed to unlock git-crypt repo user/secrets\"\n\
         \x20 exit 1\n\
         fi\n\
         echo \"cargo install (path):\"\n\
         echo \"Installing from $HOME/vault/user/secrets/cli\"\n\
         (cd $HOME/vault/user/secrets/cli && cargo install --path .)\n"
    );
    assert_eq!(text, expected);
}

#[test]
fn script_without_sections_is_the_preamble() {
    assert_eq!(build_script(&[]), PREAMBLE);
    assert_eq!(
        PREAMBLE,
        "#!/bin/bash\n# generated file by manifest\n# src: https://github.com/scottidler/manifest\n\nif [ -n \"$DEBUG\" ]; then\n    PS4=':${LINENO}+'\n    set -x\nfi\n\n"
    );
}

#[test]
fn shared_functions_stand_once_and_in_order_of_first_need() {
    let sections = vec![
        ManifestType::Script(Table::from_pairs(vec![("s".to_string(), "true".to_string())])),
        ManifestType::Link(strings(&["a b"])),
        ManifestType::Github(Table::new(), "repos".to_string()),
        ManifestType::Script(Table::from_pairs(vec![("t".to_string(), "true".to_string())])),
        ManifestType::GitCrypt(Table::new(), "repos".to_string()),
    ];
    let script = build_script(&sections);
    assert_eq!(script.matches(LINKER).count(), 1);
    assert_eq!(script.matches(LATEST).count(), 1);
    assert!(script.starts_with(&format!("{}{}\n{}\n", PREAMBLE, LATEST, LINKER)));
}

#[test]
fn two_sections_with_the_same_function_share_one_copy() {
    let sections = vec![
        ManifestType::Link(strings(&["a b"])),
        ManifestType::Github(Table::new(), "repos".to_string()),
    ];
    let script = build_script(&sections);
    let expected = format!(
        "{}{}\n{}{}",
        PREAMBLE,
        LINKER,
        "echo \"links:\"\nwhile read -r file link; do\n    linker $file $link\ndone<<EOM\na b\nEOM\n",
        "\necho \"github repos:\"\n"
    );
    assert_eq!(script, expected);
}

#[test]
fn sections_without_functions_bring_none() {
    let script = build_script(&[ManifestType::Cargo(strings(&["bat"]))]);
    assert_eq!(script, format!("{}{}", PREAMBLE, "echo \"cargo crates:\"\ncargo install bat\n"));
}

#[test]
fn only_the_first_section_loses_its_leading_line_break() {
    let sections =
        vec![ManifestType::Cargo(strings(&["bat"])), ManifestType::Npm(strings(&["wt-cli"]))];
    let script = build_script(&sections);
    assert_eq!(
        script,
        format!(
            "{}{}",
            PREAMBLE,
            "echo \"cargo crates:\"\ncargo install bat\n\necho \"npm packages:\"\nsudo npm install -g wt-cli\n"
        )
    );
}

#[test]
fn a_section_with_blank_text_adds_nothing() {
    let empty_scripts = ManifestType::Script(Table::new());
    assert_eq!(empty_scripts.render(), "");
    let sections = vec![empty_scripts, ManifestType::Cargo(strings(&["bat"]))];
    let script = build_script(&sections);
    // The blank section still asks for its shared function, and the next
    // section is not the first: it keeps its leading line break.
    assert_eq!(
        script,
        format!("{}{}\n{}", PREAMBLE, LATEST, "\necho \"cargo crates:\"\ncargo install bat\n")
    );
}

#[test]
fn shared_functions_are_shell_functions() {
    assert!(LINKER.starts_with("linker() {\n"));
    assert!(LINKER.ends_with("}\n"));
    assert!(LATEST.starts_with("latest() {\n"));
    assert!(LATEST.ends_with("}\n"));
    assert_eq!(ManifestType::Ppa(vec![]).functions(), "");
    assert_eq!(ManifestType::Pipx(vec![]).functions(), "");
}

#[test]
fn each_section_names_the_functions_it_needs() {
    let no_functions: Vec<String> = vec![];
    assert_eq!(ManifestType::Link(vec![]).required_functions(), vec![LINKER.to_string()]);
    assert_eq!(ManifestType::Script(Table::new()).required_functions(), vec![LATEST.to_string()]);
    assert_eq!(
        ManifestType::Github(Table::new(), "repos".to_string()).required_functions(),
        vec![LINKER.to_string()]
    );
    assert_eq!(
        ManifestType::GitCrypt(Table::new(), "repos".to_string()).required_functions(),
        vec![LINKER.to_string()]
    );
    assert_eq!(ManifestType::Apt(strings(&["jq"])).required_functions(), no_functions);
    assert_eq!(ManifestType::Npm(vec![]).required_functions(), no_functions);
}

#[test]
fn repositories_with_scripts_need_the_fetcher_too() {
    let mut plain = RepoSpec::default();
    plain.cargo = strings(&["./"]);
    let mut scripted = RepoSpec::default();
    scripted.script.items.insert("setup".to_string(), "latest a b c".to_string());
    let mut repos = Table::new();
    repos.insert("user/plain".to_string(), plain);
    repos.insert("user/scripted".to_string(), scripted);
    let both = vec![LINKER.to_string(), LATEST.to_string()];
    let github = ManifestType::Github(repos.clone(), "repos".to_string());
    assert_eq!(github.required_functions(), both);
    assert_eq!(github.functions(), format!("{}\n{}", LINKER, LATEST));
    let gitcrypt = ManifestType::GitCrypt(repos, "repos".to_string());
    assert_eq!(gitcrypt.required_functions(), both);

    let sections = vec![
        github,
        ManifestType::Script(Table::from_pairs(vec![("s".to_string(), "true".to_string())])),
        gitcrypt,
    ];
    let script = build_script(&sections);
    assert_eq!(script.matches(LINKER).count(), 1);
    assert_eq!(script.matches(LATEST).count(), 1);
    assert!(script.starts_with(&format!("{}{}\n{}\n", PREAMBLE, LINKER, LATEST)));
}
