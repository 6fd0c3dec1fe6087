use runterm_core::launch::{
    bash_pane_script, check_urls, choose_distribution, directory_check_args, discard_args,
    inaccessible_folder, inaccessible_pane, launch_failure, list_directories_args,
    make_folder_args, new_script_path, pages_to_open, powershell_launches, prepare_ssh,
    prog_id_command_key, script_path, reg_query_args, url_commands, valid_prog_id,
    valid_temp_folder, vscode_args, write_script_args, wsl_invocation, Prepared,
};
use runterm_core::model::{Config, Layout, Project, ResolvedPane, Shell, Template};
use runterm_core::output::{
    decode, directory_names, distributions, lines_of, program_error, sort_by_keys, start_error,
    timeout_error, PROGRAM_TIMEOUT_SECONDS,
};
use runterm_core::scripts::pane_script;
use runterm_core::strmap::StrMap;
use runterm_core::terminal::{tabs_args, PaneLaunch};

fn pane(id: &str, shell: Shell) -> Layout {
    Layout::Pane {
        id: id.into(),
        name: format!("Panneau {id}"),
        directory: ".".into(),
        commands: vec!["echo ok".into()],
        shell,
    }
}

fn project() -> Project {
    Project {
        id: "p".into(),
        name: "Projet".into(),
        root: "/home/me/project".into(),
        host: String::new(),
        distribution: String::new(),
        terminal_profile: String::new(),
        url: String::new(),
        url_disabled: false,
        vscode: false,
        vscode_folder: String::new(),
        template_id: "t".into(),
        overrides: StrMap::new(),
        launch_all: false,
    }
}

fn template(layout: Layout) -> Template {
    Template {
        id: "t".into(),
        name: "Dev".into(),
        layout,
    }
}

fn resolved(id: &str, shell: Shell) -> ResolvedPane {
    ResolvedPane {
        id: id.into(),
        name: format!("Panneau {id}"),
        directory: format!("/home/me/project/{id}"),
        commands: vec!["echo ok".into()],
        shell,
    }
}

fn strings(v: &[&str]) -> Vec<String> {
    v.iter().map(|s| s.to_string()).collect()
}

fn prepared(url: &str, vscode: &str) -> Prepared {
    Prepared {
        layout: pane("a", Shell::Bash),
        distribution: String::new(),
        profile: String::new(),
        launches: StrMap::new(),
        url: url.into(),
        vscode: vscode.into(),
        folder: None,
    }
}

#[test]
fn decodes_windows_and_linux_command_output() {
    let utf16: Vec<u8> = "Ubuntu\r\nUbuntu-24.04\r\n"
        .encode_utf16()
        .flat_map(u16::to_le_bytes)
        .collect();
    assert_eq!(decode(&utf16), "Ubuntu\r\nUbuntu-24.04\r\n");
    assert_eq!(decode("Dossier prêt".as_bytes()), "Dossier prêt");
}

#[test]
fn decode_skips_the_byte_order_mark_and_replaces_broken_text() {
    let mut bom = vec![0xff, 0xfe];
    bom.extend("été".encode_utf16().flat_map(u16::to_le_bytes));
    assert_eq!(decode(&bom), "été");
    // An unpaired surrogate, then an odd last byte that is left out.
    assert_eq!(decode(&[0xff, 0xfe, 0x00, 0xd8, 0x41, 0x00, 0x42]), "\u{FFFD}A");
    // A surrogate pair.
    let emoji: Vec<u8> = "a😀".encode_utf16().flat_map(u16::to_le_bytes).collect();
    assert_eq!(decode(&emoji), "a😀");
    assert_eq!(decode(&[b'o', b'k', 0xff]), "ok\u{FFFD}");
    assert_eq!(decode(&[]), "");
}

#[test]
fn lines_follow_str_lines() {
    for text in ["", "a", "a\n", "a\r\nb", "a\n\nb\n", "\n", "x\r", "a\rb\n"] {
        let expected: Vec<String> = text.lines().map(str::to_owned).collect();
        assert_eq!(lines_of(text), expected, "{text:?}");
    }
}

#[test]
fn distributions_are_listed_trimmed_and_without_marks() {
    assert_eq!(
        distributions("\u{feff}Ubuntu\r\n  Debian \r\n\r\n\u{feff}\r\n"),
        ["Ubuntu", "Debian"]
    );
    assert!(distributions("").is_empty());
}

#[test]
fn directories_are_sorted_without_regard_to_case_and_stably() {
    assert_eq!(
        directory_names("beta\nAlpha\n\ngamma\nalpha\nÉcole\n"),
        ["Alpha", "alpha", "beta", "gamma", "École"]
    );
    assert_eq!(directory_names("b\nB\na\n"), ["a", "b", "B"]);
    assert!(directory_names("\n\n").is_empty());
}

#[test]
fn wsl_commands_name_the_distribution_only_when_chosen() {
    assert_eq!(
        wsl_invocation("", &strings(&["mktemp", "-d"])),
        ["--exec", "mktemp", "-d"]
    );
    assert_eq!(
        wsl_invocation("Debian", &strings(&["true"])),
        ["--distribution", "Debian", "--exec", "true"]
    );
    assert_eq!(
        directory_check_args("Ubuntu", "/home/me/my dir"),
        [
            "--distribution",
            "Ubuntu",
            "--exec",
            "bash",
            "--noprofile",
            "--norc",
            "-c",
            "test -d \"$1\" && test -x \"$1\"",
            "runterm",
            "/home/me/my dir"
        ]
    );
    assert_eq!(
        make_folder_args(""),
        [
            "--exec",
            "bash",
            "--noprofile",
            "--norc",
            "-c",
            "umask 077; mktemp -d /tmp/runterm-XXXXXXXXXXXX"
        ]
    );
    assert_eq!(
        write_script_args("", "/tmp/runterm-x/a.sh")[5..],
        ["umask 077; cat > \"$1\"", "runterm", "/tmp/runterm-x/a.sh"]
    );
    assert_eq!(
        discard_args("Ubuntu", "/tmp/runterm-x"),
        ["--distribution", "Ubuntu", "--exec", "rm", "-rf", "--", "/tmp/runterm-x"]
    );
}

#[test]
fn workspaces_root_must_be_absolute_to_be_listed() {
    let args = list_directories_args("", "/home/me/workspaces").unwrap();
    assert_eq!(args[args.len() - 2..], ["runterm", "/home/me/workspaces"]);
    assert!(args[5].starts_with("builtin cd -- \"$1\" || exit 1;"));
    for bad in ["workspaces", "", "/home/\0"] {
        assert_eq!(
            list_directories_args("", bad),
            Err("La racine des workspaces doit être un chemin Linux absolu.".to_string())
        );
    }
    assert_eq!(
        inaccessible_folder("/nope"),
        "Dossier inaccessible : /nope"
    );
    assert_eq!(
        inaccessible_pane("api", "/home/me/api"),
        "Dossier inaccessible pour « api » : /home/me/api"
    );
}

#[test]
fn distribution_defaults_to_the_first_installed_one() {
    let available = strings(&["Ubuntu", "Debian"]);
    let mut p = project();
    assert_eq!(
        choose_distribution(&p, &available),
        Ok(("Ubuntu".to_string(), "Ubuntu".to_string()))
    );
    p.distribution = "Debian".into();
    p.terminal_profile = "Sombre".into();
    assert_eq!(
        choose_distribution(&p, &available),
        Ok(("Debian".to_string(), "Sombre".to_string()))
    );
    p.distribution = "Arch".into();
    assert_eq!(
        choose_distribution(&p, &available),
        Err("La distribution WSL sélectionnée est introuvable.".to_string())
    );
}

#[test]
fn powershell_panes_get_their_windows_folder() {
    let panes = vec![resolved("a", Shell::Bash), resolved("b", Shell::Powershell)];
    let m = powershell_launches(&panes, "Ubuntu", true);
    assert_eq!(m.len(), 1);
    assert!(m.get("a").is_none());
    match m.get("b") {
        Some(PaneLaunch::Powershell { script, pwsh }) => {
            assert!(*pwsh);
            assert!(script.contains("'\\\\wsl.localhost\\Ubuntu\\home\\me\\project\\b'"));
        }
        other => panic!("{other:?}"),
    }
}

#[test]
fn temporary_folders_and_scripts_keep_a_plain_shape() {
    assert!(valid_temp_folder("/tmp/runterm-AbC123xyz890"));
    for bad in ["/tmp/other", "/tmp/runterm-a b", "/tmp/runterm-é", "", "/tmp/runterm-a;b"] {
        assert!(!valid_temp_folder(bad), "{bad}");
    }
    assert_eq!(script_path("/tmp/runterm-abc", "x"), "/tmp/runterm-abc/x.sh");
    let path = new_script_path("/tmp/runterm-abc");
    assert_eq!(path.len(), "/tmp/runterm-abc/".len() + 36 + 3);
    assert!(path.starts_with("/tmp/runterm-abc/") && path.ends_with(".sh"));
    let id = &path["/tmp/runterm-abc/".len()..path.len() - 3];
    assert!(id
        .chars()
        .enumerate()
        .all(|(i, c)| if [8, 13, 18, 23].contains(&i) {
            c == '-'
        } else {
            c.is_ascii_hexdigit() && !c.is_ascii_uppercase()
        }));
    assert_ne!(path, new_script_path("/tmp/runterm-abc"));
    // The script can go straight into a Windows Terminal command line.
    let layout = pane("a", Shell::Bash);
    let mut launches = StrMap::new();
    launches.insert("a".to_string(), PaneLaunch::Bash(path.clone()));
    let tab = runterm_core::terminal::TabLaunch {
        layout: &layout,
        distribution: "",
        profile: "",
        launches: &launches,
    };
    assert!(tabs_args(&[tab]).is_ok());
    let pane = resolved("a", Shell::Bash);
    let script = bash_pane_script("/tmp/runterm-x/a.sh", "/tmp/runterm-x", &pane);
    assert_eq!(
        script,
        format!(
            "rm -f -- '/tmp/runterm-x/a.sh'\nrmdir -- '/tmp/runterm-x' 2>/dev/null || true\n{}",
            pane_script(&pane)
        )
    );
}

#[test]
fn ssh_projects_refuse_powershell_panes() {
    let mut p = project();
    p.host = "me@vm".into();
    let layout = Layout::Split {
        id: "s".into(),
        axis: runterm_core::model::Axis::Rows,
        ratio: 500_000,
        first: Box::new(pane("a", Shell::Bash)),
        second: Box::new(pane("b", Shell::Powershell)),
    };
    let panes = vec![resolved("a", Shell::Bash), resolved("b", Shell::Powershell)];
    assert_eq!(
        prepare_ssh(&p, &template(layout), &panes, "Ubuntu".into(), String::new()).err(),
        Some("Le panneau PowerShell « Panneau b » ne peut pas s’ouvrir sur un hôte SSH.".into())
    );
    let panes = vec![resolved("a", Shell::Bash)];
    let prepared = prepare_ssh(
        &p,
        &template(pane("a", Shell::Bash)),
        &panes,
        "Ubuntu".into(),
        "vscode-remote://ssh-remote+me%40vm/home/me/project".into(),
    )
    .unwrap();
    match prepared.launches.get("a") {
        Some(PaneLaunch::Ssh { host, script }) => {
            assert_eq!(host, "me@vm");
            assert_eq!(script, &pane_script(&panes[0]));
        }
        other => panic!("{other:?}"),
    }
    assert!(prepared.folder.is_none());
    assert_eq!(prepared.profile, "Ubuntu");
    // An invalid host fails when the command line is built.
    p.host = "a b".into();
    assert!(prepare_ssh(&p, &template(pane("a", Shell::Bash)), &panes, "Ubuntu".into(), String::new()).is_err());
}

#[test]
fn failures_name_their_project_when_several_are_launched() {
    let config = Config {
        schema_version: 1,
        workspace_root: String::new(),
        templates: vec![],
        projects: vec![project()],
    };
    let e = "Dossier inaccessible : /x".to_string();
    assert_eq!(
        launch_failure(&config, &strings(&["p", "q"]), "p", e.clone()),
        "Projet : Dossier inaccessible : /x"
    );
    assert_eq!(launch_failure(&config, &strings(&["p"]), "p", e.clone()), e);
    assert_eq!(launch_failure(&config, &strings(&["p", "q"]), "q", e.clone()), e);
}

#[test]
fn pages_open_once_each_in_project_order() {
    let ps = vec![
        prepared("http://b", ""),
        prepared("", "vscode-remote://wsl+Ubuntu/a"),
        prepared("http://a", "vscode-remote://wsl+Ubuntu/a"),
        prepared("http://b", ""),
    ];
    let (urls, folders) = pages_to_open(&ps);
    assert_eq!(urls, ["http://b", "http://a"]);
    assert_eq!(folders, ["vscode-remote://wsl+Ubuntu/a"]);
}

#[test]
fn urls_go_to_the_browser_together_or_to_their_handler() {
    let urls = strings(&["http://localhost:8765", "https://example.com"]);
    assert_eq!(check_urls(&urls), Ok(()));
    assert!(check_urls(&strings(&["http://ok", "file:///x"])).is_err());
    let edge = "C:\\Edge\\msedge.exe";
    assert_eq!(
        url_commands(&urls, Some(edge)),
        vec![(
            edge.to_string(),
            strings(&["--new-window", "http://localhost:8765", "https://example.com"])
        )]
    );
    assert_eq!(
        url_commands(&urls, None),
        vec![
            (
                "rundll32.exe".to_string(),
                strings(&["url.dll,FileProtocolHandler", "http://localhost:8765"])
            ),
            (
                "rundll32.exe".to_string(),
                strings(&["url.dll,FileProtocolHandler", "https://example.com"])
            ),
        ]
    );
    assert!(url_commands(&vec![], Some(edge)).is_empty());
}

#[test]
fn registry_lookups_keep_to_program_identifiers() {
    assert!(valid_prog_id("ChromeHTML"));
    assert!(valid_prog_id("MSEdgeHTM"));
    assert!(valid_prog_id("FirefoxURL-308046B0AF4A39CB"));
    for bad in ["", "a\\b", "a b", "Chrome\"HTML"] {
        assert!(!valid_prog_id(bad), "{bad}");
    }
    assert_eq!(
        prog_id_command_key("ChromeHTML"),
        "HKCR\\ChromeHTML\\shell\\open\\command"
    );
    assert_eq!(
        reg_query_args("HKCR\\x", &strings(&["/v", "ProgId"])),
        ["query", "HKCR\\x", "/v", "ProgId"]
    );
    assert_eq!(
        vscode_args("vscode-remote://wsl+Ubuntu/a"),
        ["--folder-uri", "vscode-remote://wsl+Ubuntu/a"]
    );
}

#[test]
fn failed_programs_report_what_they_printed() {
    assert_eq!(
        program_error("wsl.exe", "  Erreur : introuvable\r\n", "\n"),
        "wsl.exe : Erreur : introuvable"
    );
}

#[test]
fn stopped_and_unstarted_programs_are_named() {
    assert_eq!(PROGRAM_TIMEOUT_SECONDS, 30);
    assert_eq!(timeout_error("wsl.exe"), "wsl.exe ne répond pas après 30 secondes.");
    assert_eq!(
        start_error("wt.exe", "introuvable"),
        "Impossible de lancer wt.exe : introuvable"
    );
}

#[test]
fn names_are_sorted_by_their_keys_keeping_ties_in_order() {
    assert_eq!(
        sort_by_keys(&strings(&["b", "a", "c"]), &strings(&["2", "1", "2"])),
        ["a", "b", "c"]
    );
    assert_eq!(
        sort_by_keys(
            &strings(&["first", "second", "third"]),
            &strings(&["x", "x", "a"])
        ),
        ["third", "first", "second"]
    );
    // Keys compare by their UTF-8 bytes.
    assert_eq!(
        sort_by_keys(&strings(&["é", "z", "Z"]), &strings(&["é", "z", "Z"])),
        ["Z", "z", "é"]
    );
}
