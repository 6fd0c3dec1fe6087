use runterm_core::flow::{Launch, LaunchAction, LaunchEvent, LaunchMode};
use runterm_core::launch::Prepared;
use runterm_core::model::{Axis, Config, Layout, Project, ResolvedPane, Shell, Template};
use runterm_core::preparing::{begin, Begun, PrepareAction, PrepareEvent, Preparation};
use runterm_core::strmap::StrMap;
use runterm_core::terminal::PaneLaunch;

fn pane(id: &str, shell: Shell) -> Layout {
    Layout::Pane {
        id: id.into(),
        name: id.into(),
        directory: ".".into(),
        commands: vec!["echo ok".into()],
        shell,
    }
}

fn project(id: &str, name: &str) -> Project {
    Project {
        id: id.into(),
        name: name.into(),
        root: "/home/me/project".into(),
        host: String::new(),
        distribution: String::new(),
        terminal_profile: String::new(),
        url: String::new(),
        url_disabled: false,
        vscode: false,
        vscode_folder: String::new(),
        template_id: "t".into(),
        overrides: StrMap::new(),
        launch_all: false,
    }
}

fn config() -> Config {
    Config {
        schema_version: 1,
        workspace_root: String::new(),
        templates: vec![Template {
            id: "t".into(),
            name: "Dev".into(),
            layout: pane("a", Shell::Bash),
        }],
        projects: vec![project("p", "Projet P"), project("q", "Projet Q")],
    }
}

fn ready(url: &str, folder: &str) -> Prepared {
    let mut launches = StrMap::new();
    launches.insert(
        "a".to_string(),
        PaneLaunch::Bash(format!("{folder}/a.sh")),
    );
    Prepared {
        layout: pane("a", Shell::Bash),
        distribution: String::new(),
        profile: String::new(),
        launches,
        url: url.into(),
        vscode: String::new(),
        folder: Some(folder.into()),
    }
}

fn ids(v: &[&str]) -> Vec<String> {
    v.iter().map(|s| s.to_string()).collect()
}

fn finished(run: &Launch) -> (usize, Result<(), String>) {
    match &run.waiting {
        LaunchAction::Finish {
            discard_from,
            result,
        } => (*discard_from, result.clone()),
        other => panic!("{other:?}"),
    }
}

#[test]
fn a_launch_prepares_every_project_before_opening_anything() {
    let mut run = Launch::new(config(), ids(&["p", "q"]), LaunchMode::Windows);
    assert!(matches!(run.waiting, LaunchAction::FindTerminal));
    run.step(LaunchEvent::Found(true));
    assert!(matches!(run.waiting, LaunchAction::ListDistributions));
    run.step(LaunchEvent::Listed(Ok(ids(&["Ubuntu"]))));
    assert!(matches!(run.waiting, LaunchAction::Prepare(0)));
    run.step(LaunchEvent::Prepared(Ok(ready("http://b", "/tmp/runterm-one"))));
    assert!(matches!(run.waiting, LaunchAction::Prepare(1)));
    run.step(LaunchEvent::Prepared(Ok(ready("http://b", "/tmp/runterm-two"))));
    assert!(matches!(run.waiting, LaunchAction::OpenPages));
    assert_eq!(run.urls, ["http://b"]);
    run.step(LaunchEvent::Done(Ok(())));
    match &run.waiting {
        LaunchAction::RunTerminal(args) => {
            assert!(args.iter().any(|a| a.contains("/tmp/runterm-one/a.sh")));
            assert!(args.iter().all(|a| !a.contains("runterm-two")));
        }
        other => panic!("{other:?}"),
    }
    run.step(LaunchEvent::Done(Ok(())));
    assert_eq!(run.next, 1);
    // The second window fails: only its scripts are removed.
    run.step(LaunchEvent::Done(Err("wt.exe : échec".into())));
    assert_eq!(finished(&run), (1, Err("wt.exe : échec".into())));
}

#[test]
fn a_failed_preparation_starts_nothing_and_names_its_project() {
    let mut run = Launch::new(config(), ids(&["p", "q"]), LaunchMode::Tabs);
    run.step(LaunchEvent::Found(true));
    run.step(LaunchEvent::Listed(Ok(ids(&["Ubuntu"]))));
    run.step(LaunchEvent::Prepared(Ok(ready("", "/tmp/runterm-one"))));
    run.step(LaunchEvent::Prepared(Err("Dossier inaccessible : /x".into())));
    assert_eq!(
        finished(&run),
        (0, Err("Projet Q : Dossier inaccessible : /x".into()))
    );
    assert_eq!(run.prepared.len(), 1);
}

#[test]
fn a_launch_in_tabs_opens_one_window_and_the_editor_first() {
    let mut c = config();
    c.projects[0].vscode = true;
    let mut run = Launch::new(c, ids(&["p", "q"]), LaunchMode::Tabs);
    run.step(LaunchEvent::Found(true));
    run.step(LaunchEvent::Listed(Ok(ids(&["Ubuntu"]))));
    let mut first = ready("", "/tmp/runterm-one");
    first.vscode = "vscode-remote://wsl+Ubuntu/home/me/project".into();
    run.step(LaunchEvent::Prepared(Ok(first)));
    run.step(LaunchEvent::Prepared(Ok(ready("", "/tmp/runterm-two"))));
    assert!(matches!(run.waiting, LaunchAction::FindEditor));
    run.step(LaunchEvent::Editor(Some("C:\\Code\\Code.exe".into())));
    assert!(matches!(run.waiting, LaunchAction::OpenPages));
    run.step(LaunchEvent::Done(Ok(())));
    assert!(matches!(run.waiting, LaunchAction::StartEditor(0)));
    assert_eq!(run.editor, "C:\\Code\\Code.exe");
    run.step(LaunchEvent::Done(Ok(())));
    match &run.waiting {
        LaunchAction::RunTerminal(args) => {
            assert_eq!(args.iter().filter(|a| *a == "new-tab").count(), 2);
        }
        other => panic!("{other:?}"),
    }
    run.step(LaunchEvent::Done(Ok(())));
    assert_eq!(finished(&run), (2, Ok(())));
}

#[test]
fn a_launch_stops_early_on_what_is_missing() {
    let run = Launch::new(config(), vec![], LaunchMode::Tabs);
    assert_eq!(finished(&run), (0, Err("Aucun projet à lancer.".into())));
    let mut bad = config();
    bad.schema_version = 2;
    let run = Launch::new(bad, ids(&["p"]), LaunchMode::Tabs);
    assert!(finished(&run).1.is_err());
    let mut run = Launch::new(config(), ids(&["p"]), LaunchMode::Tabs);
    run.step(LaunchEvent::Found(false));
    assert_eq!(
        finished(&run),
        (
            0,
            Err("Windows Terminal est introuvable. Installez-le et activez son alias wt.exe.".into())
        )
    );
    let mut run = Launch::new(config(), ids(&["p"]), LaunchMode::Tabs);
    run.step(LaunchEvent::Found(true));
    run.step(LaunchEvent::Listed(Ok(vec![])));
    assert_eq!(
        finished(&run),
        (0, Err("Aucune distribution WSL installée.".into()))
    );
    let mut c = config();
    c.projects[0].vscode = true;
    let mut run = Launch::new(c, ids(&["p"]), LaunchMode::Tabs);
    run.step(LaunchEvent::Found(true));
    run.step(LaunchEvent::Listed(Ok(ids(&["Ubuntu"]))));
    let mut p = ready("", "/tmp/runterm-one");
    p.vscode = "vscode-remote://wsl+Ubuntu/home/me/project".into();
    run.step(LaunchEvent::Prepared(Ok(p)));
    run.step(LaunchEvent::Editor(None));
    assert_eq!(finished(&run).0, 0);
}

fn resolved(id: &str, shell: Shell) -> ResolvedPane {
    ResolvedPane {
        id: id.into(),
        name: format!("Panneau {id}"),
        directory: format!("/home/me/project/{id}"),
        commands: vec!["echo ok".into()],
        shell,
    }
}

#[test]
fn a_preparation_checks_every_folder_before_writing_scripts() {
    let p = project("p", "Projet");
    let t = Template {
        id: "t".into(),
        name: "Dev".into(),
        layout: Layout::Split {
            id: "s".into(),
            axis: Axis::Columns,
            ratio: 500_000,
            first: Box::new(pane("a", Shell::Bash)),
            second: Box::new(pane("b", Shell::Powershell)),
        },
    };
    let panes = vec![resolved("a", Shell::Bash), resolved("b", Shell::Powershell)];
    let mut prep = Preparation::new(&p, &t, panes, "Ubuntu".into(), "Ubuntu".into(), String::new());
    assert!(matches!(prep.waiting, PrepareAction::CheckFolder(0, _)));
    prep.step(PrepareEvent::Done(Ok(())));
    match &prep.waiting {
        PrepareAction::CheckFolder(1, args) => {
            assert_eq!(args[args.len() - 1], "/home/me/project/b")
        }
        other => panic!("{other:?}"),
    }
    prep.step(PrepareEvent::Done(Ok(())));
    assert!(matches!(prep.waiting, PrepareAction::FindPwsh));
    prep.step(PrepareEvent::Found(true));
    assert!(matches!(prep.waiting, PrepareAction::MakeFolder(_)));
    prep.step(PrepareEvent::Printed(Ok("/tmp/runterm-AbC123\n".into())));
    assert_eq!(prep.prepared.folder.as_deref(), Some("/tmp/runterm-AbC123"));
    let path = match &prep.waiting {
        PrepareAction::WriteScript { args, script } => {
            assert!(script.starts_with("rm -f -- '/tmp/runterm-AbC123/"));
            args[args.len() - 1].clone()
        }
        other => panic!("{other:?}"),
    };
    assert!(path.starts_with("/tmp/runterm-AbC123/") && path.ends_with(".sh"));
    prep.step(PrepareEvent::Done(Ok(())));
    assert!(matches!(prep.waiting, PrepareAction::Finish(Ok(()))));
    assert_eq!(prep.prepared.launches.get("a"), Some(&PaneLaunch::Bash(path)));
    assert!(matches!(
        prep.prepared.launches.get("b"),
        Some(PaneLaunch::Powershell { pwsh: true, .. })
    ));
}

#[test]
fn a_preparation_stops_on_a_missing_folder_or_an_odd_temporary_path() {
    let p = project("p", "Projet");
    let t = Template {
        id: "t".into(),
        name: "Dev".into(),
        layout: pane("a", Shell::Bash),
    };
    let panes = vec![resolved("a", Shell::Bash)];
    let mut prep = Preparation::new(&p, &t, panes.clone(), "Ubuntu".into(), "Ubuntu".into(), String::new());
    prep.step(PrepareEvent::Done(Err("wsl.exe : 1".into())));
    match &prep.waiting {
        PrepareAction::Finish(Err(e)) => {
            assert_eq!(e, "Dossier inaccessible pour « Panneau a » : /home/me/project/a")
        }
        other => panic!("{other:?}"),
    }
    let mut prep = Preparation::new(&p, &t, panes.clone(), "Ubuntu".into(), "Ubuntu".into(), String::new());
    prep.step(PrepareEvent::Done(Ok(())));
    prep.step(PrepareEvent::Printed(Ok("/home/me; rm -rf ~".into())));
    assert!(matches!(&prep.waiting, PrepareAction::Finish(Err(e)) if e == "WSL a retourné un chemin temporaire inattendu."));
    assert!(prep.prepared.folder.is_none());
    // A script that cannot be written leaves the folder to be removed.
    let mut prep = Preparation::new(&p, &t, panes, "Ubuntu".into(), "Ubuntu".into(), String::new());
    prep.step(PrepareEvent::Done(Ok(())));
    prep.step(PrepareEvent::Printed(Ok("/tmp/runterm-x".into())));
    prep.step(PrepareEvent::Done(Err("disque plein".into())));
    assert!(matches!(prep.waiting, PrepareAction::Finish(Err(_))));
    assert!(prep.prepared.discard().is_some());
}

#[test]
fn a_preparation_begins_with_the_project_it_resolves() {
    let mut c = config();
    let available = ids(&["Ubuntu", "Debian"]);
    match begin(&c, "p", &available) {
        Begun::Steps(prep) => {
            assert_eq!(prep.distribution, "Ubuntu");
            assert_eq!(prep.prepared.profile, "Ubuntu");
            assert!(matches!(prep.waiting, PrepareAction::CheckFolder(0, _)));
        }
        other => panic!("{other:?}"),
    }
    assert!(matches!(begin(&c, "x", &available), Begun::Failed(e) if e == "Projet introuvable."));
    c.projects[0].distribution = "Arch".into();
    assert!(matches!(
        begin(&c, "p", &available),
        Begun::Failed(e) if e == "La distribution WSL sélectionnée est introuvable."
    ));
    c.projects[0].distribution = "Debian".into();
    c.projects[0].host = "me@vm".into();
    match begin(&c, "p", &available) {
        Begun::Ready(prepared) => {
            assert_eq!(prepared.distribution, "Debian");
            assert!(matches!(prepared.launches.get("a"), Some(PaneLaunch::Ssh { host, .. }) if host == "me@vm"));
        }
        other => panic!("{other:?}"),
    }
}
