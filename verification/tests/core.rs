use runterm_core::browser::{browser_args, browser_executable, reg_string};
use runterm_core::encode::{base64_encode, encode_powershell};
use runterm_core::model::Axis::{Columns as C, Rows as R};
use runterm_core::model::{Axis, Config, Layout, Override, Project, Shell, Template};
use runterm_core::quote::{powershell_quote, wsl_windows_path};
use runterm_core::scripts::ssh_command;
use runterm_core::strmap::StrMap;
use runterm_core::terminal::{tabs_args, terminal_args, PaneLaunch, TabLaunch, MAX_LAUNCH_PANES};

fn pane(id: &str) -> Layout {
    Layout::Pane {
        id: id.into(),
        name: id.into(),
        directory: ".".into(),
        commands: vec!["echo ok".into()],
        shell: Shell::Bash,
    }
}

fn config() -> Config {
    Config {
        schema_version: 1,
        workspace_root: String::new(),
        templates: vec![Template {
            id: "t".into(),
            name: "Dev".into(),
            layout: pane("a"),
        }],
        projects: vec![Project {
            id: "p".into(),
            name: "Projet".into(),
            root: "/home/me/project".into(),
            host: String::new(),
            distribution: "Ubuntu".into(),
            terminal_profile: String::new(),
            url: String::new(),
            url_disabled: false,
            vscode: false,
            vscode_folder: String::new(),
            template_id: "t".into(),
            overrides: StrMap::new(),
            launch_all: false,
        }],
    }
}

fn launches(pairs: Vec<(&str, PaneLaunch)>) -> StrMap<PaneLaunch> {
    let mut m = StrMap::new();
    for (id, launch) in pairs {
        m.insert(id.to_string(), launch);
    }
    m
}

fn bash_launches(ids: &[&str], folder: &str) -> StrMap<PaneLaunch> {
    launches(
        ids.iter()
            .map(|id| (*id, PaneLaunch::Bash(format!("/tmp/runterm-{folder}/{id}.sh"))))
            .collect(),
    )
}

#[test]
fn overrides_and_distinct_roots() {
    let mut c = config();
    c.projects[0].overrides.insert(
        "a".into(),
        Override {
            directory: Some("backend".into()),
            commands: Some(vec![]),
        },
    );
    let mut other = c.projects[0].clone();
    other.id = "q".into();
    other.root = "/other".into();
    c.projects.push(other);
    let (_, _, p) = c.resolve("p").unwrap();
    assert_eq!(p[0].directory, "/home/me/project/backend");
    assert!(p[0].commands.is_empty());
    assert_eq!(c.resolve("q").unwrap().2[0].directory, "/other/backend");
    c.projects[0].overrides.clear();
    assert_eq!(c.resolve("p").unwrap().2[0].commands, vec!["echo ok"]);
}

#[test]
fn nested_layout_navigation() {
    let l = Layout::Split {
        id: "root".into(),
        axis: Axis::Rows,
        ratio: 400_000,
        first: Box::new(Layout::Split {
            id: "nested".into(),
            axis: Axis::Columns,
            ratio: 700_000,
            first: Box::new(pane("a")),
            second: Box::new(pane("b")),
        }),
        second: Box::new(pane("c")),
    };
    let scripts = launches(
        ["a", "b", "c"]
            .iter()
            .map(|id| (*id, PaneLaunch::Bash(format!("/tmp/runterm-test/{id}.sh"))))
            .collect(),
    );
    let args = terminal_args(&l, "Ubuntu", "Ubuntu", &scripts).unwrap();
    assert_eq!(args.iter().filter(|a| *a == "split-pane").count(), 2);
    assert!(args.windows(3).any(|a| a == ["-H", "--size", "0.600000"]));
    assert!(args.windows(3).any(|a| a == ["-V", "--size", "0.300000"]));
    // Every split targets its pane by id rather than trusting the current focus.
    for i in (0..args.len()).filter(|&i| args[i] == "split-pane") {
        assert_eq!(args[i - 4..i - 2], ["focus-pane", "--target"]);
    }
    // Programs must be able to update the tab title.
    assert!(args.iter().all(|a| a != "--suppressApplicationTitle"));
    assert_eq!(
        args.windows(2)
            .filter(|a| a == &["--profile", "Ubuntu"])
            .count(),
        3
    );
    assert!(terminal_args(&pane("a"), "", "", &scripts)
        .unwrap()
        .iter()
        .all(|a| a != "split-pane"));
}

enum Node {
    Leaf(String),
    Split(String, String, Box<Node>, Box<Node>),
}

fn split_node(n: &mut Node, target: &str, dir: &str, size: &str, title: &str) {
    match n {
        Node::Leaf(t) if t == target => {
            let old = std::mem::take(t);
            *n = Node::Split(
                dir.into(),
                size.into(),
                Box::new(Node::Leaf(old)),
                Box::new(Node::Leaf(title.into())),
            );
        }
        Node::Leaf(_) => {}
        Node::Split(_, _, a, b) => {
            split_node(a, target, dir, size, title);
            split_node(b, target, dir, size, title);
        }
    }
}

fn render(n: &Node) -> String {
    match n {
        Node::Leaf(t) => t.clone(),
        Node::Split(d, s, a, b) => format!("{d} {s}({},{})", render(a), render(b)),
    }
}

/// Replays wt.exe arguments the way Windows Terminal builds its pane tree and
/// returns it in the same textual form as `expected_tree`.
fn simulate_windows_terminal(args: &[String]) -> String {
    let title = |c: &[String]| c[c.iter().position(|a| a == "--title").unwrap() + 1].clone();
    // Pane ids, numbered per tab in creation order.
    let (mut root, mut ids, mut focused) = (None::<Node>, Vec::new(), String::new());
    for command in args.split(|a| a == ";") {
        match command
            .iter()
            .position(|a| a == "new-tab" || a == "split-pane" || a == "focus-pane")
        {
            Some(i) if command[i] == "new-tab" => {
                focused = title(command);
                root = Some(Node::Leaf(focused.clone()));
                ids = vec![focused.clone()];
            }
            Some(i) if command[i] == "split-pane" => {
                let new = title(command);
                split_node(
                    root.as_mut().unwrap(),
                    &focused,
                    &command[i + 1],
                    &command[i + 3],
                    &new,
                );
                ids.push(new.clone());
                focused = new;
            }
            Some(i) => {
                assert_eq!(command[i + 1], "--target");
                focused = ids[command[i + 2].parse::<usize>().unwrap()].clone();
            }
            None => panic!("commande inattendue {command:?}"),
        }
    }
    render(root.as_ref().unwrap()) + " focus=" + &focused
}

fn expected_tree(l: &Layout) -> String {
    match l {
        Layout::Pane { name, .. } => name.clone(),
        Layout::Split {
            axis,
            ratio,
            first,
            second,
            ..
        } => {
            let rest = 1_000_000 - ratio;
            format!(
                "{} {}.{:06}({},{})",
                if *axis == Axis::Columns { "-V" } else { "-H" },
                rest / 1_000_000,
                rest % 1_000_000,
                expected_tree(first),
                expected_tree(second)
            )
        }
    }
}

fn split(axis: Axis, first: Layout, second: Layout) -> Layout {
    Layout::Split {
        id: format!("s-{}", uuid_like(&first, &second)),
        axis,
        ratio: 500_000,
        first: Box::new(first),
        second: Box::new(second),
    }
}

fn uuid_like(a: &Layout, b: &Layout) -> String {
    format!("{}{}", expected_tree(a), expected_tree(b))
        .replace(|c: char| !c.is_ascii_alphanumeric(), "")
}

fn collect_ids(l: &Layout, ids: &mut Vec<String>) {
    match l {
        Layout::Pane { id, .. } => ids.push(id.clone()),
        Layout::Split { first, second, .. } => {
            collect_ids(first, ids);
            collect_ids(second, ids);
        }
    }
}

#[test]
fn terminal_args_reproduce_layout_tree() {
    let layouts = [
        pane("a"),
        split(
            C,
            split(R, pane("a"), pane("b")),
            split(R, pane("c"), pane("d")),
        ),
        split(
            R,
            split(C, pane("a"), split(R, pane("b"), pane("c"))),
            split(C, pane("d"), pane("e")),
        ),
        split(
            C,
            split(
                R,
                split(C, pane("a"), pane("b")),
                split(C, pane("c"), pane("d")),
            ),
            split(
                R,
                split(C, pane("e"), pane("f")),
                split(C, pane("g"), pane("h")),
            ),
        ),
    ];
    for l in layouts {
        let mut ids = Vec::new();
        collect_ids(&l, &mut ids);
        let scripts = launches(
            ids.iter()
                .map(|id| (id.as_str(), PaneLaunch::Bash(format!("/tmp/runterm-test/{id}.sh"))))
                .collect(),
        );
        let args = terminal_args(&l, "Ubuntu", "Ubuntu", &scripts).unwrap();
        assert_eq!(
            simulate_windows_terminal(&args),
            format!("{} focus=a", expected_tree(&l))
        );
    }
}

#[test]
fn terminal_profile_is_optional_and_validated() {
    let mut c = config();
    assert!(c.validate().is_ok());
    c.projects[0].terminal_profile = "Ubuntu 24.04.1 LTS".into();
    assert!(c.validate().is_ok());
    for bad in ["a;b", "a\nb", "--help"] {
        c.projects[0].terminal_profile = bad.into();
        assert!(c.validate().is_err(), "{bad}");
    }
}

#[test]
fn url_is_optional_and_validated() {
    let mut c = config();
    assert!(c.validate().is_ok());
    for good in [
        "http://localhost:5173",
        "https://app.example.com/dashboard?tab=1#top",
        "http://127.0.0.1:8000/docs",
    ] {
        c.projects[0].url = good.into();
        assert!(c.validate().is_ok(), "{good}");
    }
    for bad in [
        "localhost:5173",
        "file:///C:/page.html",
        "http://",
        "http://a b",
        "http://a\nb",
        "--no-sandbox",
        "http://a\u{0}b",
    ] {
        c.projects[0].url = bad.into();
        assert!(c.validate().is_err(), "{bad:?}");
    }
}

#[test]
fn a_disabled_url_is_kept_but_not_opened() {
    let mut c = config();
    c.projects[0].url = "http://localhost:5173".into();
    assert_eq!(c.projects[0].url_to_open(), "http://localhost:5173");
    c.projects[0].url_disabled = true;
    // The address stays in the file, and is still held to the same rules.
    assert!(c.validate().is_ok());
    assert_eq!(c.projects[0].url, "http://localhost:5173");
    assert_eq!(c.projects[0].url_to_open(), "");
}

#[test]
fn vscode_opens_the_root_or_another_folder_remotely() {
    let mut c = config();
    assert_eq!(c.projects[0].vscode_uri("Ubuntu"), "");
    c.projects[0].vscode = true;
    assert_eq!(
        c.projects[0].vscode_uri("Ubuntu"),
        "vscode-remote://wsl+Ubuntu/home/me/project"
    );
    for (folder, uri) in [
        (".", "vscode-remote://wsl+Ubuntu/home/me/project"),
        (
            "frontend/",
            "vscode-remote://wsl+Ubuntu/home/me/project/frontend",
        ),
        (
            "/srv/other app",
            "vscode-remote://wsl+Ubuntu/srv/other%20app",
        ),
        ("/", "vscode-remote://wsl+Ubuntu/"),
        (
            "été#1",
            "vscode-remote://wsl+Ubuntu/home/me/project/%C3%A9t%C3%A9%231",
        ),
    ] {
        c.projects[0].vscode_folder = folder.into();
        assert!(c.validate().is_ok(), "{folder}");
        assert_eq!(c.projects[0].vscode_uri("Ubuntu"), uri, "{folder}");
    }
    c.projects[0].vscode_folder = "back\nend".into();
    assert!(c.validate().is_err());
    // Over SSH, the host names the remote; `@` and `:` stay out of the authority syntax.
    c.projects[0].vscode_folder = String::new();
    c.projects[0].host = "me@dev:2222".into();
    assert_eq!(
        c.projects[0].vscode_uri("Ubuntu"),
        "vscode-remote://ssh-remote+me%40dev%3A2222/home/me/project"
    );
}

#[test]
fn default_browser_is_read_from_its_registry_command() {
    let chrome = "    (Default)    REG_SZ    \"C:\\Program Files\\Google\\Chrome\\Application\\chrome.exe\" --single-argument %1";
    assert_eq!(
        reg_string(&format!(
            "\r\nHKEY_CLASSES_ROOT\\ChromeHTML\\shell\\open\\command\r\n{chrome}\r\n"
        ))
        .as_deref()
        .and_then(browser_executable),
        Some("C:\\Program Files\\Google\\Chrome\\Application\\chrome.exe".into())
    );
    // A localized entry name, an expandable value and an unquoted path with spaces.
    let firefox = "    (Par défaut)    REG_EXPAND_SZ    C:\\Program Files\\Mozilla Firefox\\firefox.exe -osint -url \"%1\"";
    assert_eq!(
        reg_string(firefox).as_deref().and_then(browser_executable),
        Some("C:\\Program Files\\Mozilla Firefox\\firefox.exe".into())
    );
    assert_eq!(
        reg_string("    ProgId    REG_SZ    ChromeHTML").as_deref(),
        Some("ChromeHTML")
    );
    assert_eq!(reg_string("ERROR: cannot find the key"), None);
    // A Store application, or anything else RunTerm cannot pass URLs to.
    for bad in ["", "\"%1\"", "AppX4hxtad77fbk3jkkeerkrm0ze94wjf3s9"] {
        assert_eq!(browser_executable(bad), None, "{bad:?}");
    }
}

#[test]
fn chromium_browsers_get_a_new_window_for_every_url() {
    let urls = [
        "http://localhost:8765".to_owned(),
        "https://example.com".to_owned(),
    ];
    // One flag for the whole command line: the URLs are tabs of that one window.
    assert_eq!(
        browser_args(
            "C:\\Program Files (x86)\\Microsoft\\Edge\\Application\\MSEDGE.EXE",
            &urls
        ),
        [
            "--new-window",
            "http://localhost:8765",
            "https://example.com"
        ]
    );
    assert_eq!(
        browser_args(
            "C:/Program Files/Google/Chrome/Application/chrome.exe",
            &urls
        )[0],
        "--new-window"
    );
    // Firefox has no flag that opens several URLs in one new window.
    assert_eq!(
        browser_args("C:\\Program Files\\Mozilla Firefox\\firefox.exe", &urls),
        urls
    );
    assert_eq!(browser_args("chrome.exe", &[]), ["--new-window"]);
}

#[test]
fn workspace_root_is_optional_and_validated() {
    let mut c = config();
    assert!(c.validate().is_ok());
    c.workspace_root = "/home/me/workspaces".into();
    assert!(c.validate().is_ok());
    for bad in ["workspaces", "/home/\0"] {
        c.workspace_root = bad.into();
        assert!(c.validate().is_err(), "{bad}");
    }
}

#[test]
fn shell_defaults_to_bash_and_is_omitted() {
    let mut c = config();
    assert_eq!(c.resolve("p").unwrap().2[0].shell, Shell::Bash);
    assert_eq!(Shell::default(), Shell::Bash);
    let Layout::Pane { shell, .. } = &mut c.templates[0].layout else {
        unreachable!()
    };
    *shell = Shell::Powershell;
    assert_eq!(c.resolve("p").unwrap().2[0].shell, Shell::Powershell);
}

#[test]
fn powershell_quoting_and_paths() {
    assert_eq!(powershell_quote("it's"), "'it''s'");
    assert_eq!(powershell_quote("a\u{2019}b"), "'a\u{2019}\u{2019}b'");
    assert_eq!(powershell_quote("$x `n"), "'$x `n'");
    assert_eq!(
        wsl_windows_path("Ubuntu", "/home/me/my project/."),
        r"\\wsl.localhost\Ubuntu\home\me\my project\."
    );
    // `[Convert]::ToBase64String([Text.Encoding]::Unicode.GetBytes(...))`
    assert_eq!(encode_powershell("a"), "YQA=");
    assert_eq!(encode_powershell("ab"), "YQBiAA==");
    assert_eq!(encode_powershell("abc"), "YQBiAGMA");
    assert_eq!(encode_powershell("é;"), "6QA7AA==");
}

#[test]
fn powershell_panes_use_their_own_program_and_profile() {
    let l = split(Axis::Columns, pane("a"), pane("b"));
    let ls = launches(vec![
        ("a", PaneLaunch::Bash("/tmp/runterm-test/a.sh".into())),
        (
            "b",
            PaneLaunch::Powershell {
                script: "Write-Host 'a ; b'".into(),
                pwsh: false,
            },
        ),
    ]);
    let args = terminal_args(&l, "Ubuntu", "Ubuntu", &ls).unwrap();
    let encoded = encode_powershell("Write-Host 'a ; b'");
    assert!(args.windows(10).any(|a| a
        == [
            "--profile",
            "Windows PowerShell",
            "--title",
            "b",
            "--",
            "powershell.exe",
            "-NoLogo",
            "-NoExit",
            "-EncodedCommand",
            encoded.as_str(),
        ]));
    // Windows Terminal would split the command on any `;` argument content.
    assert!(args.iter().all(|a| a == ";" || !a.contains(';')));
    assert_eq!(args.iter().filter(|a| *a == "wsl.exe").count(), 1);
    let pwsh = launches(vec![(
        "a",
        PaneLaunch::Powershell {
            script: String::new(),
            pwsh: true,
        },
    )]);
    let args = terminal_args(&pane("a"), "", "Ubuntu", &pwsh).unwrap();
    assert!(args.windows(2).any(|a| a == ["--profile", "PowerShell"]));
    assert!(args.iter().any(|a| a == "pwsh.exe"));
    let long = launches(vec![(
        "a",
        PaneLaunch::Powershell {
            script: "x".repeat(20_000),
            pwsh: false,
        },
    )]);
    assert!(terminal_args(&pane("a"), "", "", &long).is_err());
}

#[test]
fn validation_rejects_missing_template_and_invalid_ratios() {
    let mut c = config();
    c.projects[0].template_id = "missing".into();
    assert!(c.validate().is_err());
    c = config();
    c.projects[0].overrides.insert(
        "a".into(),
        Override {
            directory: Some("../escape".into()),
            commands: None,
        },
    );
    assert!(c.validate().is_err());
}

#[test]
fn tabs_args_open_one_tab_per_project() {
    let split = Layout::Split {
        id: "s".into(),
        axis: Axis::Columns,
        ratio: 500_000,
        first: Box::new(pane("a")),
        second: Box::new(pane("b")),
    };
    // Both projects use the same template, hence the same pane ids.
    let (first, second) = (
        bash_launches(&["a", "b"], "one"),
        bash_launches(&["a", "b"], "two"),
    );
    let args = tabs_args(&[
        TabLaunch {
            layout: &split,
            distribution: "Ubuntu",
            profile: "Ubuntu",
            launches: &first,
        },
        TabLaunch {
            layout: &split,
            distribution: "Debian",
            profile: "Sombre",
            launches: &second,
        },
    ])
    .unwrap();
    assert_eq!(&args[..4], ["-w", "new", "--maximized", "new-tab"]);
    assert_eq!(args.iter().filter(|a| *a == "new-tab").count(), 2);
    assert_eq!(args.iter().filter(|a| *a == "split-pane").count(), 2);
    assert_eq!(args[args.len() - 4..], [";", "focus-tab", "--target", "0"]);
    let second_tab = args.iter().rposition(|a| a == "new-tab").unwrap();
    assert_eq!(args[second_tab - 1], ";");
    let tail = &args[second_tab..];
    assert!(tail.windows(2).any(|a| a == ["--distribution", "Debian"]));
    assert!(tail.windows(2).any(|a| a == ["--profile", "Sombre"]));
    assert!(tail.iter().any(|a| a.contains("/tmp/runterm-two/a.sh")));
    assert!(tail.iter().all(|a| !a.contains("runterm-one")));
    // A single tab keeps the historical output, without focus-tab.
    assert_eq!(
        tabs_args(&[TabLaunch {
            layout: &split,
            distribution: "Ubuntu",
            profile: "Ubuntu",
            launches: &first,
        }])
        .unwrap(),
        terminal_args(&split, "Ubuntu", "Ubuntu", &first).unwrap()
    );
    assert!(terminal_args(&split, "Ubuntu", "Ubuntu", &first)
        .unwrap()
        .iter()
        .all(|a| a != "focus-tab"));
    assert!(tabs_args(&[]).is_err());
    let (one, single) = (bash_launches(&["a"], "x"), pane("a"));
    let many = vec![
        TabLaunch {
            layout: &single,
            distribution: "",
            profile: "",
            launches: &one,
        };
        MAX_LAUNCH_PANES + 1
    ];
    assert!(tabs_args(&many[..MAX_LAUNCH_PANES]).is_ok());
    assert!(tabs_args(&many).is_err());
}

#[test]
fn launch_all_is_optional_in_json() {
    let mut c = config();
    assert!(!c.projects[0].launch_all);
    c.projects[0].launch_all = true;
    assert!(c.validate().is_ok());
    assert!(c.projects[0].launch_all);
}

#[test]
fn host_is_optional_and_validated() {
    let mut c = config();
    assert!(c.validate().is_ok());
    for good in ["vps", "me@dev-vm.example.com", "me@10.0.0.2", "::1"] {
        c.projects[0].host = good.into();
        assert!(c.validate().is_ok(), "{good}");
    }
    for bad in [
        "-oProxyCommand=x",
        "a b",
        "a;b",
        "a'b",
        "a\"b",
        "h\n",
        "$(x)",
    ] {
        c.projects[0].host = bad.into();
        assert!(c.validate().is_err(), "{bad:?}");
        assert!(ssh_command(bad, "").is_err());
    }
    assert!(ssh_command("", "").is_err());
}

#[test]
fn ssh_panes_run_ssh_from_wsl() {
    let l = split(Axis::Columns, pane("a"), pane("b"));
    let ls = launches(vec![
        (
            "a",
            PaneLaunch::Ssh {
                host: "me@vm".into(),
                script: "echo 'a ; \"b\"'".into(),
            },
        ),
        (
            "b",
            PaneLaunch::Ssh {
                host: "me@vm".into(),
                script: String::new(),
            },
        ),
    ]);
    let args = terminal_args(&l, "Ubuntu", "Ubuntu", &ls).unwrap();
    let command = ssh_command("me@vm", "echo 'a ; \"b\"'").unwrap();
    assert!(args.windows(11).any(|a| a
        == [
            "--profile",
            "Ubuntu",
            "--title",
            "a",
            "--",
            "wsl.exe",
            "--distribution",
            "Ubuntu",
            "--exec",
            "bash",
            "-lic",
        ]));
    assert!(args.contains(&command));
    // Windows Terminal splits on `;` and may not relay `"` to wsl.exe.
    assert!(args.iter().all(|a| a == ";" || !a.contains([';', '"'])));
    assert_eq!(simulate_windows_terminal(&args), "-V 0.500000(a,b) focus=a");
}

/// RFC 4648 decoding, written out for the check below.
fn decode_base64(text: &str) -> Option<Vec<u8>> {
    let alphabet = b"ABCDEFGHIJKLMNOPQRSTUVWXYZabcdefghijklmnopqrstuvwxyz0123456789+/";
    let bytes = text.as_bytes();
    if bytes.len() % 4 != 0 {
        return None;
    }
    let mut out = Vec::new();
    for group in bytes.chunks(4) {
        let mut value: u32 = 0;
        let mut pads = 0;
        for &c in group {
            value <<= 6;
            if c == b'=' {
                pads += 1;
            } else {
                if pads > 0 {
                    return None;
                }
                value |= alphabet.iter().position(|&a| a == c)? as u32;
            }
        }
        let all = [(value >> 16) as u8, (value >> 8) as u8, value as u8];
        out.extend_from_slice(&all[..3 - pads]);
    }
    Some(out)
}

#[test]
fn base64_has_padded_length_and_reads_back() {
    for n in 0..12usize {
        let bytes: Vec<u8> = (0..n).map(|i| (i * 37 + 200) as u8).collect();
        let text = base64_encode(&bytes);
        assert_eq!(text.len(), 4 * ((n + 2) / 3));
        assert!(text
            .bytes()
            .all(|c| c.is_ascii_alphanumeric() || c == b'+' || c == b'/' || c == b'='));
        assert_eq!(decode_base64(&text), Some(bytes));
    }
    assert_eq!(base64_encode(b"Man"), "TWFu");
    assert_eq!(base64_encode(b"Ma"), "TWE=");
}
