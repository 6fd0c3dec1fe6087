use runterm_core::model::{Axis, Config, Layout, Override, Project, Shell, Template};
use runterm_core::quote::{percent_encode, shell_quote};
use runterm_core::strmap::StrMap;

fn pane(id: &str) -> Layout {
    Layout::Pane {
        id: id.into(),
        name: id.into(),
        directory: ".".into(),
        commands: vec!["echo ok".into()],
        shell: Shell::Bash,
    }
}

fn config() -> Config {
    Config {
        schema_version: 1,
        workspace_root: String::new(),
        templates: vec![Template {
            id: "t".into(),
            name: "Dev".into(),
            layout: pane("a"),
        }],
        projects: vec![Project {
            id: "p".into(),
            name: "Projet".into(),
            root: "/home/me/project".into(),
            host: String::new(),
            distribution: "Ubuntu".into(),
            terminal_profile: String::new(),
            url: String::new(),
            url_disabled: false,
            vscode: false,
            vscode_folder: String::new(),
            template_id: "t".into(),
            overrides: StrMap::new(),
            launch_all: false,
        }],
    }
}

fn error_of(c: &Config) -> String {
    c.validate().unwrap_err()
}

fn split(id: &str, ratio: u32, first: Layout, second: Layout) -> Layout {
    Layout::Split {
        id: id.into(),
        axis: Axis::Rows,
        ratio,
        first: Box::new(first),
        second: Box::new(second),
    }
}

/// A layout of `n` panes named `p0`, `p1`…
fn chain(n: usize) -> Layout {
    let mut l = pane("p0");
    for i in 1..n {
        l = split(&format!("s{i}"), 500_000, l, pane(&format!("p{i}")));
    }
    l
}

#[test]
fn validation_reports_each_error_in_words() {
    let mut c = config();
    c.schema_version = 2;
    assert_eq!(error_of(&c), "Version du fichier de configuration non prise en charge.");
    let mut c = config();
    c.workspace_root = "relative".into();
    assert_eq!(error_of(&c), "La racine des workspaces doit être un chemin Linux absolu.");
    let mut c = config();
    c.templates[0].id = " ".into();
    assert_eq!(
        error_of(&c),
        "Identifiant du modèle vide ou contenant un caractère interdit (retour à la ligne, point-virgule)."
    );
    let mut c = config();
    c.templates[0].name = "a;b".into();
    assert_eq!(
        error_of(&c),
        "Nom du modèle vide ou contenant un caractère interdit (retour à la ligne, point-virgule)."
    );
    let mut c = config();
    c.templates.push(c.templates[0].clone());
    assert_eq!(error_of(&c), "Identifiant de modèle dupliqué.");
    let mut c = config();
    c.templates[0].layout = split("s", 500_000, pane("a"), pane("a"));
    assert_eq!(error_of(&c), "Identifiant de panneau dupliqué.");
    let mut c = config();
    c.templates[0].layout = split("s", 950_000, pane("a"), pane("b"));
    assert_eq!(error_of(&c), "La proportion doit être comprise entre 10 et 90 %.");
    let mut c = config();
    c.templates[0].layout = Layout::Pane {
        id: "a".into(),
        name: "a".into(),
        directory: "../up".into(),
        commands: vec![],
        shell: Shell::Bash,
    };
    assert_eq!(
        error_of(&c),
        "Le dossier du panneau doit être relatif à la racine, sans « .. »."
    );
    let mut c = config();
    c.templates[0].layout = Layout::Pane {
        id: "a".into(),
        name: "a".into(),
        directory: ".".into(),
        commands: vec!["a\0b".into()],
        shell: Shell::Bash,
    };
    assert_eq!(error_of(&c), "Commande contenant un caractère nul.");
    let mut c = config();
    c.templates[0].layout = chain(17);
    c.projects.clear();
    assert_eq!(error_of(&c), "Un layout peut contenir au maximum 16 panneaux.");
    c.templates[0].layout = chain(16);
    assert!(c.validate().is_ok());
    let mut c = config();
    let mut deep = pane("p0");
    for i in 1..=21 {
        deep = split(&format!("s{i}"), 500_000, deep, pane(&format!("p{i}")));
    }
    c.templates[0].layout = deep;
    assert_eq!(error_of(&c), "Layout trop profondément imbriqué.");
    let mut c = config();
    c.projects.push(c.projects[0].clone());
    assert_eq!(error_of(&c), "Identifiant de projet dupliqué.");
    let mut c = config();
    c.projects[0].template_id = "x".into();
    assert_eq!(error_of(&c), "Un projet référence un modèle absent.");
    let mut c = config();
    c.projects[0].root = "home".into();
    assert_eq!(error_of(&c), "La racine doit être un chemin Linux absolu.");
    let mut c = config();
    c.projects[0].host = "-x".into();
    assert_eq!(
        error_of(&c),
        "Hôte SSH invalide (lettres, chiffres et « . _ - @ : » uniquement)."
    );
    let mut c = config();
    c.projects[0].url = "ftp://x".into();
    assert_eq!(
        error_of(&c),
        "L’URL du projet doit commencer par http:// ou https://."
    );
    c.projects[0].url = "http://a\"b".into();
    assert_eq!(
        error_of(&c),
        "URL du projet invalide (espace, guillemet ou caractère de contrôle)."
    );
    c.projects[0].url = format!("http://{}", "a".repeat(1993));
    assert!(c.validate().is_ok());
    c.projects[0].url = format!("http://{}", "a".repeat(1994));
    assert!(c.validate().is_err());
    let mut c = config();
    c.projects[0].vscode_folder = "a\tb".into();
    assert_eq!(error_of(&c), "Dossier VS Code invalide (caractère de contrôle).");
    let mut c = config();
    c.projects[0].distribution = "a\nb".into();
    assert_eq!(error_of(&c), "Distribution invalide.");
    let mut c = config();
    c.projects[0].terminal_profile = "  -x".into();
    assert_eq!(error_of(&c), "Profil Windows Terminal invalide.");
    let mut c = config();
    c.projects[0].overrides.insert(
        "a".into(),
        Override {
            directory: None,
            commands: Some(vec!["\0".into()]),
        },
    );
    assert_eq!(error_of(&c), "Commande contenant un caractère nul.");
}

#[test]
fn a_disabled_url_is_held_to_the_same_rules() {
    let mut c = config();
    c.projects[0].url = "localhost".into();
    let enabled = c.validate();
    c.projects[0].url_disabled = true;
    assert_eq!(c.validate(), enabled);
    assert!(enabled.is_err());
}

#[test]
fn resolving_applies_customizations_over_the_template() {
    let mut c = config();
    c.templates[0].layout = split("s", 400_000, pane("a"), pane("b"));
    c.projects[0].overrides.insert(
        "b".into(),
        Override {
            directory: None,
            commands: Some(vec!["make".into()]),
        },
    );
    let (_, _, panes) = c.resolve("p").unwrap();
    assert_eq!(panes.len(), 2);
    assert_eq!(panes[0].commands, ["echo ok"]);
    assert_eq!(panes[1].commands, ["make"]);
    assert_eq!(panes[1].directory, "/home/me/project/.");
    assert_eq!(c.resolve("nope").unwrap_err(), "Projet introuvable.");
}

#[test]
fn quoted_values_stay_one_word() {
    assert_eq!(shell_quote("it's"), "'it'\\''s'");
    assert_eq!(shell_quote(""), "''");
    assert_eq!(shell_quote("a b;$(c)"), "'a b;$(c)'");
    assert_eq!(percent_encode("me@dev:22/x", ""), "me%40dev%3A22%2Fx");
    assert_eq!(percent_encode("/srv/a b~", "/"), "/srv/a%20b~");
}
