//! What a launch runs and decides around Windows Terminal: the `wsl.exe`
//! command lines, the checks a project passes before anything opens, and the
//! errors reported on the way.
use vstd::prelude::*;
use crate::browser::{browser_args, browser_command};
use crate::model::{leaves, same_layout, Config, Layout, Project, ResolvedPane, Shell, Template};
use crate::quote::{shell_quote, shell_quoted, wsl_path, wsl_windows_path};
use crate::resolve::find_project;
use crate::scripts::{bash_script, pane_script, powershell_script, powershell_text};
use crate::strmap::{lookup, StrMap};
use crate::terminal::{
    args_length, distribution_args, script_path_ok, tab_start, tab_text, tabs_args, tabs_body,
    tabs_text, total_panes, window_args, Args, PaneLaunch, TabLaunch, ARG_DISTRIBUTION, ARG_EXEC,
    ERR_COMMAND_TOO_LONG, ERR_TOO_MANY_LAUNCH_PANES, MAX_COMMAND_LINE, MAX_LAUNCH_PANES,
    SCRIPT_FOLDER,
};
use crate::text::{
    chars_of, contains_text, is_alphanumeric_char, is_ascii_alphanumeric,
    is_ascii_alphanumeric_byte, push_str, starts_with, string_from, texts_of,
};
use crate::validate::{outcome, root_ok, url_error, valid_url, ERR_WORKSPACE_ROOT};

verus! {

pub const BASH: &'static str = "bash";
pub const BASH_NO_PROFILE: &'static str = "--noprofile";
pub const BASH_NO_RC: &'static str = "--norc";
pub const BASH_COMMAND: &'static str = "-c";
/// `$0` of the scripts run with `bash -c`.
pub const SCRIPT_NAME: &'static str = "runterm";
/// Succeeds when `$1` is a folder that can be entered.
pub const DIRECTORY_TEST: &'static str = "test -d \"$1\" && test -x \"$1\"";
/// Creates the private folder of a project's scripts and prints its path.
pub const MAKE_FOLDER: &'static str = "umask 077; mktemp -d /tmp/runterm-XXXXXXXXXXXX";
/// Writes its input, privately, to `$1`.
pub const WRITE_SCRIPT: &'static str = "umask 077; cat > \"$1\"";
/// One line: `wsl.exe` receives it as a single command-line argument. Lists
/// the visible subfolders of `$1`, skipping names that hold a newline.
pub const LIST_DIRECTORIES: &'static str = "builtin cd -- \"$1\" || exit 1; shopt -s nullglob; for d in */; do d=${d%/}; [[ $d == *$'\\n'* ]] || printf '%s\\n' \"$d\"; done";
pub const REMOVE: &'static str = "rm";
pub const REMOVE_RECURSIVE: &'static str = "-rf";
pub const END_OF_OPTIONS: &'static str = "--";

pub const ERR_DISTRIBUTION_MISSING: &'static str = "La distribution WSL sélectionnée est introuvable.";
pub const ERR_TEMP_FOLDER: &'static str = "WSL a retourné un chemin temporaire inattendu.";
pub const ERR_NO_DISTRIBUTION: &'static str = "Aucune distribution WSL installée.";
pub const ERR_NO_TERMINAL: &'static str = "Windows Terminal est introuvable. Installez-le et activez son alias wt.exe.";
pub const ERR_NO_VSCODE: &'static str = "Visual Studio Code est introuvable. Installez-le, ou décochez « Ouvrir VS Code ».";
pub const INACCESSIBLE: &'static str = "Dossier inaccessible : ";
pub const INACCESSIBLE_PANE: &'static str = "Dossier inaccessible pour « ";
pub const INACCESSIBLE_PANE_END: &'static str = " » : ";
pub const SSH_POWERSHELL: &'static str = "Le panneau PowerShell « ";
pub const SSH_POWERSHELL_END: &'static str = " » ne peut pas s’ouvrir sur un hôte SSH.";
pub const NAME_SEPARATOR: &'static str = " : ";

/// Arguments of `wsl.exe` running `command` in `distribution`, the default
/// one when empty.
pub open spec fn wsl_command(distribution: Seq<char>, command: Seq<Seq<char>>) -> Seq<Seq<char>> {
    distribution_args(distribution) + seq![ARG_EXEC@] + command
}

/// `bash` running `script`, without the user's startup files.
pub open spec fn bash_c(script: Seq<char>) -> Seq<Seq<char>> {
    seq![BASH@, BASH_NO_PROFILE@, BASH_NO_RC@, BASH_COMMAND@, script]
}

/// `bash` running `script` with `argument` as `$1`.
pub open spec fn bash_c_with(script: Seq<char>, argument: Seq<char>) -> Seq<Seq<char>> {
    bash_c(script) + seq![SCRIPT_NAME@, argument]
}

/// Appends each text of `items` to `out`.
fn push_all(out: &mut Vec<String>, items: &[String])
    ensures
        texts_of(final(out)@) == texts_of(old(out)@) + texts_of(items@),
{
    let mut i: usize = 0;
    while i < items.len()
        invariant
            i <= items.len(),
            texts_of(out@) == texts_of(old(out)@) + texts_of(items@).take(i as int),
        decreases items.len() - i,
    {
        let ghost before = texts_of(out@);
        out.push(items[i].clone());
        assert(texts_of(out@) =~= before.push(items@[i as int]@));
        assert(texts_of(items@).take(i + 1) =~= texts_of(items@).take(i as int).push(
            items@[i as int]@,
        ));
        i += 1;
    }
    assert(texts_of(items@).take(i as int) =~= texts_of(items@));
}

/// Arguments of `wsl.exe` running `command` in `distribution`, the default
/// one when empty.
pub fn wsl_invocation(distribution: &str, command: &[String]) -> (args: Vec<String>)
    ensures
        texts_of(args@) == wsl_command(distribution@, texts_of(command@)),
{
    let mut args: Vec<String> = Vec::new();
    if !distribution.is_empty() {
        args.push(string_from(ARG_DISTRIBUTION));
        args.push(string_from(distribution));
    }
    args.push(string_from(ARG_EXEC));
    assert(texts_of(args@) =~= distribution_args(distribution@) + seq![ARG_EXEC@]);
    push_all(&mut args, command);
    args
}

/// `bash -c script`, with `argument` as `$1` when there is one.
fn bash_words(script: &str, argument: Option<&str>) -> (words: Vec<String>)
    ensures
        texts_of(words@) == match argument {
            Some(a) => bash_c_with(script@, a@),
            None => bash_c(script@),
        },
{
    let mut words: Vec<String> = Vec::new();
    words.push(string_from(BASH));
    words.push(string_from(BASH_NO_PROFILE));
    words.push(string_from(BASH_NO_RC));
    words.push(string_from(BASH_COMMAND));
    words.push(string_from(script));
    if let Some(a) = argument {
        words.push(string_from(SCRIPT_NAME));
        words.push(string_from(a));
    }
    assert(texts_of(words@) =~= match argument {
        Some(a) => bash_c_with(script@, a@),
        None => bash_c(script@),
    });
    words
}

/// `wsl.exe` checking that a pane's folder exists and can be entered.
pub fn directory_check_args(distribution: &str, directory: &str) -> (args: Vec<String>)
    ensures
        texts_of(args@) == wsl_command(distribution@, bash_c_with(DIRECTORY_TEST@, directory@)),
{
    let words = bash_words(DIRECTORY_TEST, Some(directory));
    wsl_invocation(distribution, words.as_slice())
}

/// `wsl.exe` creating the private folder of a project's scripts.
pub fn make_folder_args(distribution: &str) -> (args: Vec<String>)
    ensures
        texts_of(args@) == wsl_command(distribution@, bash_c(MAKE_FOLDER@)),
{
    let words = bash_words(MAKE_FOLDER, None);
    wsl_invocation(distribution, words.as_slice())
}

/// `wsl.exe` writing what it reads to the script at `path`.
pub fn write_script_args(distribution: &str, path: &str) -> (args: Vec<String>)
    ensures
        texts_of(args@) == wsl_command(distribution@, bash_c_with(WRITE_SCRIPT@, path@)),
{
    let words = bash_words(WRITE_SCRIPT, Some(path));
    wsl_invocation(distribution, words.as_slice())
}

/// `wsl.exe` removing the scripts folder of a project that will not start.
pub fn discard_args(distribution: &str, folder: &str) -> (args: Vec<String>)
    ensures
        texts_of(args@) == wsl_command(
            distribution@,
            seq![REMOVE@, REMOVE_RECURSIVE@, END_OF_OPTIONS@, folder@],
        ),
{
    let mut words: Vec<String> = Vec::new();
    words.push(string_from(REMOVE));
    words.push(string_from(REMOVE_RECURSIVE));
    words.push(string_from(END_OF_OPTIONS));
    words.push(string_from(folder));
    assert(texts_of(words@) =~= seq![REMOVE@, REMOVE_RECURSIVE@, END_OF_OPTIONS@, folder@]);
    wsl_invocation(distribution, words.as_slice())
}

/// `wsl.exe` listing the subfolders of the workspaces root `path`, which must
/// be an absolute Linux path.
pub fn list_directories_args(distribution: &str, path: &str) -> (r: Result<Vec<String>, String>)
    ensures
        match r {
            Ok(args) => root_ok(path@) && texts_of(args@) == wsl_command(
                distribution@,
                bash_c_with(LIST_DIRECTORIES@, path@),
            ),
            Err(e) => !root_ok(path@) && e@ == ERR_WORKSPACE_ROOT@,
        },
{
    let v = crate::text::chars_of(path);
    let absolute = v.len() > 0 && v[0] == '/';
    let nul = crate::text::contains_char(path, '\0');
    proof {
        assert(absolute == crate::validate::starts_with_char(path@, '/'));
    }
    if !absolute || nul {
        return Err(string_from(ERR_WORKSPACE_ROOT));
    }
    let words = bash_words(LIST_DIRECTORIES, Some(path));
    Ok(wsl_invocation(distribution, words.as_slice()))
}

/// Error for a workspaces root that cannot be listed.
pub fn inaccessible_folder(path: &str) -> (e: String)
    ensures
        e@ == INACCESSIBLE@ + path@,
{
    let mut e = string_from(INACCESSIBLE);
    push_str(&mut e, path);
    e
}

/// Error for a pane whose folder cannot be entered.
pub fn inaccessible_pane(name: &str, directory: &str) -> (e: String)
    ensures
        e@ == INACCESSIBLE_PANE@ + name@ + INACCESSIBLE_PANE_END@ + directory@,
{
    let mut e = string_from(INACCESSIBLE_PANE);
    push_str(&mut e, name);
    push_str(&mut e, INACCESSIBLE_PANE_END);
    push_str(&mut e, directory);
    e
}

/// A project ready to open: its scripts are written, nothing is started yet.
#[derive(Debug)]
pub struct Prepared {
    pub layout: Layout,
    /// As configured: empty means the default distribution.
    pub distribution: String,
    pub profile: String,
    pub launches: StrMap<PaneLaunch>,
    /// Page to open in the default browser. Empty: none, or the project
    /// keeps its URL without opening it.
    pub url: String,
    /// `--folder-uri` opened in VS Code. Empty: none.
    pub vscode: String,
    /// Temporary folder holding the Bash scripts.
    pub folder: Option<String>,
}

impl Prepared {
    /// The project's tab in a Windows Terminal command line.
    pub fn tab(&self) -> (t: TabLaunch<'_>)
        ensures
            *t.layout == self.layout,
            t.distribution@ == self.distribution@,
            t.profile@ == self.profile@,
            *t.launches == self.launches,
    {
        TabLaunch {
            layout: &self.layout,
            distribution: self.distribution.as_str(),
            profile: self.profile.as_str(),
            launches: &self.launches,
        }
    }

    /// `wsl.exe` removing the scripts of a project that will not be
    /// started; nothing when none were written.
    pub fn discard(&self) -> (args: Option<Vec<String>>)
        ensures
            match self.folder {
                None => args is None,
                Some(f) => args matches Some(a) && texts_of(a@) == wsl_command(
                    self.distribution@,
                    seq![REMOVE@, REMOVE_RECURSIVE@, END_OF_OPTIONS@, f@],
                ),
            },
    {
        match &self.folder {
            None => None,
            Some(f) => Some(discard_args(self.distribution.as_str(), f.as_str())),
        }
    }
}

/// The command line opening one project alone, or the first error.
pub open spec fn alone_text(
    layout: Layout,
    distribution: Seq<char>,
    profile: Seq<char>,
    launches: Seq<(Seq<char>, PaneLaunch)>,
) -> Result<Args, Seq<char>> {
    if leaves(layout).len() > MAX_LAUNCH_PANES {
        Err(ERR_TOO_MANY_LAUNCH_PANES@)
    } else {
        match tab_text(layout, distribution, profile, launches) {
            Err(e) => Err(e),
            Ok(a) => {
                let all = window_args() + (Seq::empty() + (tab_start(1) + a));
                if args_length(all) > MAX_COMMAND_LINE {
                    Err(ERR_COMMAND_TOO_LONG@)
                } else {
                    Ok(all)
                }
            },
        }
    }
}

/// A single tab's command line is that of its project opened alone.
pub proof fn lemma_alone_text(t: TabLaunch)
    ensures
        tabs_text(seq![t]) == alone_text(*t.layout, t.distribution@, t.profile@, t.launches@),
{
    let tabs = seq![t];
    assert(tabs.drop_last() =~= Seq::<TabLaunch>::empty());
    assert(tabs.last() == t);
    assert(total_panes(tabs.drop_last()) == 0);
    assert(total_panes(tabs) == leaves(*t.layout).len());
    assert(tabs_body(tabs.drop_last()) == Ok::<Args, Seq<char>>(Seq::empty()));
    let body = tabs_body(tabs);
    match tab_text(*t.layout, t.distribution@, t.profile@, t.launches@) {
        Err(e) => {},
        Ok(a) => {
            assert(body == Ok::<Args, Seq<char>>(Seq::empty() + (tab_start(1) + a)));
            let all = window_args() + (Seq::empty() + (tab_start(1) + a));
            assert(window_args() + body->Ok_0 + Seq::<Seq<char>>::empty() =~= all);
        },
    }
}

/// The distribution and profile a project's panes use, or the error when
/// the project names a distribution that is not installed. `available` lists
/// the installed ones, the default first.
pub open spec fn distribution_choice(project: Project, available: Seq<Seq<char>>) -> Result<
    (Seq<char>, Seq<char>),
    Seq<char>,
> {
    if project.distribution@.len() > 0 && !available.contains(project.distribution@) {
        Err(ERR_DISTRIBUTION_MISSING@)
    } else {
        let d = if project.distribution@.len() == 0 {
            available[0]
        } else {
            project.distribution@
        };
        let p = if project.terminal_profile@.len() == 0 {
            d
        } else {
            project.terminal_profile@
        };
        Ok((d, p))
    }
}

/// The distribution a project runs in and the Windows Terminal profile of its
/// panes: without a distribution, the default one, which `wsl --list` puts
/// first; without a profile, the one Windows Terminal names after the
/// distribution.
pub fn choose_distribution(project: &Project, available: &Vec<String>) -> (r: Result<
    (String, String),
    String,
>)
    requires
        available.len() > 0,
    ensures
        match r {
            Ok((d, p)) => distribution_choice(*project, texts_of(available@)) == Ok::<
                (Seq<char>, Seq<char>),
                Seq<char>,
            >((d@, p@)),
            Err(e) => distribution_choice(*project, texts_of(available@)) == Err::<
                (Seq<char>, Seq<char>),
                Seq<char>,
            >(e@),
        },
{
    let named = !project.distribution.as_str().is_empty();
    if named && !contains_text(available, project.distribution.as_str()) {
        return Err(string_from(ERR_DISTRIBUTION_MISSING));
    }
    let distribution = if named {
        project.distribution.clone()
    } else {
        available[0].clone()
    };
    let profile = if project.terminal_profile.as_str().is_empty() {
        distribution.clone()
    } else {
        project.terminal_profile.clone()
    };
    Ok((distribution, profile))
}

/// The last pane of `panes` with this id and shell.
pub open spec fn last_pane(panes: Seq<ResolvedPane>, id: Seq<char>, shell: Shell) -> Option<
    ResolvedPane,
>
    decreases panes.len(),
{
    if panes.len() == 0 {
        None
    } else if panes.last().id@ == id && panes.last().shell == shell {
        Some(panes.last())
    } else {
        last_pane(panes.drop_last(), id, shell)
    }
}

/// `launch` starts `pane` with PowerShell in its folder, reached from Windows
/// through `\\wsl.localhost`.
pub open spec fn powershell_launch_of(
    launch: PaneLaunch,
    pane: ResolvedPane,
    distribution: Seq<char>,
    pwsh: bool,
) -> bool {
    launch matches PaneLaunch::Powershell { script, pwsh: w } && w == pwsh && script@
        == powershell_text(wsl_path(distribution, pane.directory@), texts_of(pane.commands@))
}

/// The launches of the PowerShell panes, by pane id.
pub open spec fn powershell_launches_ok(
    launches: Seq<(Seq<char>, PaneLaunch)>,
    panes: Seq<ResolvedPane>,
    distribution: Seq<char>,
    pwsh: bool,
) -> bool {
    forall|id: Seq<char>| #![trigger lookup(launches, id)]
        match last_pane(panes, id, Shell::Powershell) {
            None => lookup(launches, id) is None,
            Some(p) => lookup(launches, id) matches Some(l) && powershell_launch_of(
                l,
                p,
                distribution,
                pwsh,
            ),
        }
}

/// How each PowerShell pane starts: its script, run by PowerShell 7 when
/// `pwsh` says it is installed, in the pane's folder seen from Windows.
pub fn powershell_launches(panes: &Vec<ResolvedPane>, distribution: &str, pwsh: bool) -> (m:
    StrMap<PaneLaunch>)
    ensures
        powershell_launches_ok(m@, panes@, distribution@, pwsh),
{
    let mut m: StrMap<PaneLaunch> = StrMap::new();
    let mut i: usize = 0;
    while i < panes.len()
        invariant
            i <= panes.len(),
            powershell_launches_ok(m@, panes@.take(i as int), distribution@, pwsh),
        decreases panes.len() - i,
    {
        let ghost before = m@;
        let pane = &panes[i];
        assert(panes@.take(i + 1).drop_last() =~= panes@.take(i as int));
        assert(panes@.take(i + 1).last() == *pane);
        if pane.shell == Shell::Powershell {
            let directory = wsl_windows_path(distribution, pane.directory.as_str());
            let script = powershell_script(pane, directory.as_str());
            m.insert(pane.id.clone(), PaneLaunch::Powershell { script, pwsh });
        }
        assert forall|id: Seq<char>| #![trigger lookup(m@, id)]
            match last_pane(panes@.take(i + 1), id, Shell::Powershell) {
                None => lookup(m@, id) is None,
                Some(p) => lookup(m@, id) matches Some(l) && powershell_launch_of(
                    l,
                    p,
                    distribution@,
                    pwsh,
                ),
            } by {
            assert(lookup(before, id) == lookup(before, id));
        }
        i += 1;
    }
    assert(panes@.take(i as int) =~= panes@);
    m
}

/// Whether a pane runs PowerShell, which then needs to know whether
/// PowerShell 7 is installed.
pub fn has_powershell(panes: &Vec<ResolvedPane>) -> (b: bool)
    ensures
        b == exists|i: int| 0 <= i < panes.len() && #[trigger] panes@[i].shell == Shell::Powershell,
{
    let mut i: usize = 0;
    while i < panes.len()
        invariant
            i <= panes.len(),
            forall|j: int| 0 <= j < i ==> #[trigger] panes@[j].shell != Shell::Powershell,
        decreases panes.len() - i,
    {
        if panes[i].shell == Shell::Powershell {
            return true;
        }
        i += 1;
    }
    false
}

pub const SCRIPT_SUFFIX: &'static str = ".sh";
pub const CLEANUP_REMOVE: &'static str = "rm -f -- ";
pub const CLEANUP_RMDIR: &'static str = "\nrmdir -- ";
pub const CLEANUP_END: &'static str = " 2>/dev/null || true\n";

/// The folder `mktemp` made for a project's scripts, as expected: under
/// `/tmp/runterm-`, of ASCII letters, digits, `/` and `-` only.
pub open spec fn temp_folder_ok(folder: Seq<char>) -> bool {
    &&& starts_with(folder, SCRIPT_FOLDER@)
    &&& forall|i: int|
        0 <= i < folder.len() ==> is_ascii_alphanumeric(#[trigger] folder[i]) || folder[i] == '/'
            || folder[i] == '-'
}

/// Whether the path WSL printed for the scripts folder is the kind `mktemp`
/// makes; anything else is refused before it reaches a command line.
pub fn valid_temp_folder(folder: &str) -> (b: bool)
    ensures
        b == temp_folder_ok(folder@),
{
    let v = chars_of(folder);
    let prefix = chars_of(SCRIPT_FOLDER);
    if !crate::text::starts_with_at(&v, 0, &prefix) {
        assert(v@.skip(0) =~= v@);
        return false;
    }
    assert(v@.skip(0) =~= v@);
    let mut i: usize = 0;
    while i < v.len()
        invariant
            i <= v.len(),
            v@ == folder@,
            forall|j: int|
                0 <= j < i ==> is_ascii_alphanumeric(#[trigger] v@[j]) || v@[j] == '/' || v@[j]
                    == '-',
        decreases v.len() - i,
    {
        let c = v[i];
        if !(is_alphanumeric_char(c) || c == '/' || c == '-') {
            return false;
        }
        i += 1;
    }
    true
}

/// A lowercase hexadecimal digit.
pub open spec fn is_lower_hex(c: char) -> bool {
    ('0' <= c <= '9') || ('a' <= c <= 'f')
}

/// A UUID in its hyphenated lowercase text form.
pub open spec fn uuid_shape(u: Seq<char>) -> bool {
    &&& u.len() == 36
    &&& forall|i: int|
        0 <= i < 36 ==> if i == 8 || i == 13 || i == 18 || i == 23 {
            #[trigger] u[i] == '-'
        } else {
            is_lower_hex(u[i])
        }
}

/// `uuid::Uuid::new_v4()` as text: a random version-4 UUID, written as 32
/// lowercase hexadecimal digits in groups of 8, 4, 4, 4 and 12 separated by
/// hyphens. Nothing is said of which digits come out. It panics when the
/// system gives no random bytes, which no argument decides.
#[verifier::external_body]
fn random_uuid() -> (u: String)
    ensures
        uuid_shape(u@),
{
    uuid::Uuid::new_v4().to_string()
}

/// `path` is a script named by a UUID in `folder`.
pub open spec fn script_in(folder: Seq<char>, path: Seq<char>) -> bool {
    exists|u: Seq<char>| uuid_shape(u) && path == folder + seq!['/'] + u + SCRIPT_SUFFIX@
}

/// The path of the script named `id` in `folder`.
pub fn script_path(folder: &str, id: &str) -> (path: String)
    ensures
        path@ == folder@ + seq!['/'] + id@ + SCRIPT_SUFFIX@,
{
    let mut path = string_from(folder);
    crate::text::push_char(&mut path, '/');
    push_str(&mut path, id);
    push_str(&mut path, SCRIPT_SUFFIX);
    path
}

/// A new script path in `folder`, named by a random UUID.
pub fn new_script_path(folder: &str) -> (path: String)
    ensures
        script_in(folder@, path@),
{
    let u = random_uuid();
    let path = script_path(folder, u.as_str());
    assert(uuid_shape(u@) && path@ == folder@ + seq!['/'] + u@ + SCRIPT_SUFFIX@);
    path
}

/// The lines a Bash pane script starts with: it removes itself, then the
/// folder once it is the last one to go.
pub open spec fn cleanup_text(path: Seq<char>, folder: Seq<char>) -> Seq<char> {
    CLEANUP_REMOVE@ + shell_quoted(path) + CLEANUP_RMDIR@ + shell_quoted(folder) + CLEANUP_END@
}

/// The script a Bash pane runs from `path` in `folder`.
pub fn bash_pane_script(path: &str, folder: &str, pane: &ResolvedPane) -> (script: String)
    ensures
        script@ == cleanup_text(path@, folder@) + bash_script(
            pane.directory@,
            texts_of(pane.commands@),
        ),
{
    let mut script = string_from(CLEANUP_REMOVE);
    push_str(&mut script, shell_quote(path).as_str());
    push_str(&mut script, CLEANUP_RMDIR);
    push_str(&mut script, shell_quote(folder).as_str());
    push_str(&mut script, CLEANUP_END);
    push_str(&mut script, pane_script(pane).as_str());
    script
}

/// The page a project opens when launched: none when its URL is disabled.
pub open spec fn page_of(project: Project) -> Seq<char> {
    if project.url_disabled {
        Seq::empty()
    } else {
        project.url@
    }
}

/// What a prepared project keeps of its project, template and choices.
pub open spec fn prepared_for(
    p: Prepared,
    project: Project,
    template: Template,
    profile: Seq<char>,
    vscode: Seq<char>,
) -> bool {
    &&& same_layout(template.layout, p.layout)
    &&& p.distribution@ == project.distribution@
    &&& p.profile@ == profile
    &&& p.url@ == page_of(project)
    &&& p.vscode@ == vscode
}

/// The last pane of `panes` with this id.
pub open spec fn last_with_id(panes: Seq<ResolvedPane>, id: Seq<char>) -> Option<ResolvedPane>
    decreases panes.len(),
{
    if panes.len() == 0 {
        None
    } else if panes.last().id@ == id {
        Some(panes.last())
    } else {
        last_with_id(panes.drop_last(), id)
    }
}

/// The launch connecting `pane` to `host` and running its script there.
pub open spec fn ssh_launch_of(launch: PaneLaunch, pane: ResolvedPane, host: Seq<char>) -> bool {
    launch matches PaneLaunch::Ssh { host: h, script } && h@ == host && script@ == bash_script(
        pane.directory@,
        texts_of(pane.commands@),
    )
}

/// The launches of every pane of an SSH project, by pane id.
pub open spec fn ssh_launches_ok(
    launches: Seq<(Seq<char>, PaneLaunch)>,
    panes: Seq<ResolvedPane>,
    host: Seq<char>,
) -> bool {
    forall|id: Seq<char>| #![trigger lookup(launches, id)]
        match last_with_id(panes, id) {
            None => lookup(launches, id) is None,
            Some(p) => lookup(launches, id) matches Some(l) && ssh_launch_of(l, p, host),
        }
}

/// Every pane connecting to `host`.
fn ssh_launches(host: &str, panes: &Vec<ResolvedPane>) -> (m: StrMap<PaneLaunch>)
    ensures
        ssh_launches_ok(m@, panes@, host@),
{
    let mut m: StrMap<PaneLaunch> = StrMap::new();
    let mut i: usize = 0;
    while i < panes.len()
        invariant
            i <= panes.len(),
            ssh_launches_ok(m@, panes@.take(i as int), host@),
        decreases panes.len() - i,
    {
        let ghost before = m@;
        let pane = &panes[i];
        assert(panes@.take(i + 1).drop_last() =~= panes@.take(i as int));
        assert(panes@.take(i + 1).last() == *pane);
        let launch = PaneLaunch::Ssh { host: string_from(host), script: pane_script(pane) };
        m.insert(pane.id.clone(), launch);
        assert forall|id: Seq<char>| #![trigger lookup(m@, id)]
            match last_with_id(panes@.take(i + 1), id) {
                None => lookup(m@, id) is None,
                Some(p) => lookup(m@, id) matches Some(l) && ssh_launch_of(l, p, host@),
            } by {
            assert(lookup(before, id) == lookup(before, id));
        }
        i += 1;
    }
    assert(panes@.take(i as int) =~= panes@);
    m
}

/// The first PowerShell pane of `panes`.
pub open spec fn first_powershell(panes: Seq<ResolvedPane>) -> Option<ResolvedPane>
    decreases panes.len(),
{
    if panes.len() == 0 {
        None
    } else if panes[0].shell == Shell::Powershell {
        Some(panes[0])
    } else {
        first_powershell(panes.drop_first())
    }
}

/// Error for a PowerShell pane in a project on an SSH host.
pub open spec fn ssh_powershell_text(name: Seq<char>) -> Seq<char> {
    SSH_POWERSHELL@ + name + SSH_POWERSHELL_END@
}

/// What preparing a project on an SSH host gives: the error of its first
/// PowerShell pane, or its panes connecting to the host, with the command
/// line of the project opened alone, or that command line's error.
pub open spec fn ssh_prepared(
    r: Result<Prepared, String>,
    project: Project,
    template: Template,
    panes: Seq<ResolvedPane>,
    profile: Seq<char>,
    vscode: Seq<char>,
) -> bool {
    match first_powershell(panes) {
        Some(pane) => r matches Err(e) && e@ == ssh_powershell_text(pane.name@),
        None => match r {
            Ok(p) => {
                &&& prepared_for(p, project, template, profile, vscode)
                &&& p.folder is None
                &&& ssh_launches_ok(p.launches@, panes, project.host@)
                &&& alone_text(template.layout, project.distribution@, profile, p.launches@) is Ok
            },
            Err(e) => exists|ls: Seq<(Seq<char>, PaneLaunch)>|
                ssh_launches_ok(ls, panes, project.host@) && alone_text(
                    template.layout,
                    project.distribution@,
                    profile,
                    ls,
                ) == Err::<Args, Seq<char>>(e@),
        },
    }
}

/// Panes on an SSH host: their scripts travel in the `ssh` command line, so
/// nothing is written or checked beforehand; a missing folder is reported in
/// its pane. PowerShell panes cannot run there.
pub fn prepare_ssh(
    project: &Project,
    template: &Template,
    panes: &Vec<ResolvedPane>,
    profile: String,
    vscode: String,
) -> (r: Result<Prepared, String>)
    ensures
        ssh_prepared(r, *project, *template, panes@, profile@, vscode@),
{
    let mut i: usize = 0;
    assert(panes@.skip(0) =~= panes@);
    while i < panes.len()
        invariant
            i <= panes.len(),
            first_powershell(panes@) == first_powershell(panes@.skip(i as int)),
        decreases panes.len() - i,
    {
        assert(panes@.skip(i as int)[0] == panes@[i as int]);
        assert(panes@.skip(i as int).drop_first() =~= panes@.skip(i + 1));
        if panes[i].shell == Shell::Powershell {
            let mut e = string_from(SSH_POWERSHELL);
            push_str(&mut e, panes[i].name.as_str());
            push_str(&mut e, SSH_POWERSHELL_END);
            return Err(e);
        }
        i += 1;
    }
    let launches = ssh_launches(project.host.as_str(), panes);
    let tab = TabLaunch {
        layout: &template.layout,
        distribution: project.distribution.as_str(),
        profile: profile.as_str(),
        launches: &launches,
    };
    let tabs = [tab];
    assert(tabs@ =~= seq![tab]);
    let checked = tabs_args(tabs.as_slice());
    proof {
        lemma_alone_text(tab);
    }
    if let Err(e) = checked {
        return Err(e);
    }
    Ok(
        Prepared {
            layout: template.layout.clone(),
            distribution: project.distribution.clone(),
            profile,
            launches,
            url: string_from(project.url_to_open()),
            vscode,
            folder: None,
        },
    )
}

/// A character a script path may hold.
spec fn path_char(c: char) -> bool {
    is_ascii_alphanumeric(c) || c == '/' || c == '-' || c == '.'
}

/// A script named by a UUID in a folder `mktemp` made is a path the Windows
/// Terminal command line accepts.
pub proof fn law_new_scripts_pass_the_path_check(folder: Seq<char>, path: Seq<char>)
    requires
        temp_folder_ok(folder),
        script_in(folder, path),
    ensures
        script_path_ok(path),
{
    let u = choose|u: Seq<char>| uuid_shape(u) && path == folder + seq!['/'] + u + SCRIPT_SUFFIX@;
    reveal_strlit(".sh");
    reveal_strlit("/tmp/runterm-");
    let n = folder.len() as int;
    assert(path.len() == n + 40);
    assert forall|i: int| 0 <= i < path.len() implies #[trigger] path_char(path[i]) by {
        if i < n {
            assert(path[i] == folder[i]);
        } else if i == n {
            assert(path[i] == '/');
        } else if i < n + 37 {
            assert(path[i] == u[i - n - 1]);
            assert(uuid_shape(u));
            let k = i - n - 1;
            assert(if k == 8 || k == 13 || k == 18 || k == 23 {
                u[k] == '-'
            } else {
                is_lower_hex(u[k])
            });
        } else {
            assert(path[i] == SCRIPT_SUFFIX@[i - n - 37]);
        }
    }
    assert(vstd::utf8::is_ascii_chars(path)) by {
        assert forall|i: int| 0 <= i < path.len() implies '\0' <= #[trigger] path[i] <= '\u{7f}' by {
            assert(path_char(path[i]));
        }
    }
    vstd::utf8::is_ascii_chars_encode_utf8(path);
    let bytes = vstd::utf8::encode_utf8(path);
    assert forall|i: int| 0 <= i < bytes.len() implies {
        let b = #[trigger] bytes[i];
        is_ascii_alphanumeric_byte(b) || b == 0x2f || b == 0x2e || b == 0x2d || b == 0x5f
    } by {
        assert(path[i] as u8 == bytes[i]);
        assert(path_char(path[i]));
    }
    assert(starts_with(path, SCRIPT_FOLDER@)) by {
        assert(path.take(SCRIPT_FOLDER@.len() as int) =~= folder.take(SCRIPT_FOLDER@.len() as int));
    }
}

/// The error a launch of `count` projects reports when the project `id`
/// failed with `e`: named after the project when several were launched.
pub open spec fn failure_text(config: Config, count: nat, id: Seq<char>, e: Seq<char>) -> Seq<
    char,
> {
    match find_project(config.projects@, id) {
        Some(p) => if count > 1 {
            p.name@ + NAME_SEPARATOR@ + e
        } else {
            e
        },
        None => e,
    }
}

/// The error reported when project `id` of `ids` cannot be prepared.
pub fn launch_failure(config: &Config, ids: &Vec<String>, id: &str, e: String) -> (r: String)
    ensures
        r@ == failure_text(*config, ids.len() as nat, id@, e@),
{
    let mut i: usize = 0;
    assert(config.projects@.skip(0) =~= config.projects@);
    while i < config.projects.len()
        invariant
            i <= config.projects.len(),
            find_project(config.projects@, id@) == find_project(
                config.projects@.skip(i as int),
                id@,
            ),
        decreases config.projects.len() - i,
    {
        let ghost rest = config.projects@.skip(i as int);
        assert(rest[0] == config.projects@[i as int]);
        assert(rest.drop_first() =~= config.projects@.skip(i + 1));
        if crate::text::str_eq(config.projects[i].id.as_str(), id) {
            if ids.len() > 1 {
                let mut r = config.projects[i].name.clone();
                push_str(&mut r, NAME_SEPARATOR);
                push_str(&mut r, e.as_str());
                return r;
            }
            return e;
        }
        i += 1;
    }
    e
}

/// The non-empty texts of `items`, each once, in the order they first come.
pub open spec fn distinct_pages(items: Seq<Seq<char>>) -> Seq<Seq<char>>
    decreases items.len(),
{
    if items.len() == 0 {
        Seq::empty()
    } else {
        let before = distinct_pages(items.drop_last());
        let x = items.last();
        if x.len() == 0 || before.contains(x) {
            before
        } else {
            before.push(x)
        }
    }
}

/// Pages of the prepared projects, in order.
pub open spec fn urls_of(prepared: Seq<Prepared>) -> Seq<Seq<char>> {
    prepared.map_values(|p: Prepared| p.url@)
}

/// VS Code folders of the prepared projects, in order.
pub open spec fn folders_of(prepared: Seq<Prepared>) -> Seq<Seq<char>> {
    prepared.map_values(|p: Prepared| p.vscode@)
}

/// Adds `x` to `out` unless it is empty or already there.
fn push_page(out: &mut Vec<String>, x: &String)
    ensures
        texts_of(final(out)@) == if x@.len() == 0 || texts_of(old(out)@).contains(x@) {
            texts_of(old(out)@)
        } else {
            texts_of(old(out)@).push(x@)
        },
{
    if !x.as_str().is_empty() && !contains_text(out, x.as_str()) {
        let ghost before = texts_of(out@);
        out.push(x.clone());
        assert(texts_of(out@) =~= before.push(x@));
    }
}

/// The pages and VS Code folders the launched projects open, each once, in
/// the order of the projects.
pub fn pages_to_open(prepared: &Vec<Prepared>) -> (r: (Vec<String>, Vec<String>))
    ensures
        texts_of(r.0@) == distinct_pages(urls_of(prepared@)),
        texts_of(r.1@) == distinct_pages(folders_of(prepared@)),
{
    let mut urls: Vec<String> = Vec::new();
    let mut folders: Vec<String> = Vec::new();
    let mut i: usize = 0;
    while i < prepared.len()
        invariant
            i <= prepared.len(),
            texts_of(urls@) == distinct_pages(urls_of(prepared@).take(i as int)),
            texts_of(folders@) == distinct_pages(folders_of(prepared@).take(i as int)),
        decreases prepared.len() - i,
    {
        assert(urls_of(prepared@).take(i + 1).drop_last() =~= urls_of(prepared@).take(i as int));
        assert(folders_of(prepared@).take(i + 1).drop_last() =~= folders_of(prepared@).take(
            i as int,
        ));
        push_page(&mut urls, &prepared[i].url);
        push_page(&mut folders, &prepared[i].vscode);
        i += 1;
    }
    assert(urls_of(prepared@).take(i as int) =~= urls_of(prepared@));
    assert(folders_of(prepared@).take(i as int) =~= folders_of(prepared@));
    (urls, folders)
}

/// The first invalid URL's error, `None` when all are valid.
pub open spec fn urls_error(urls: Seq<Seq<char>>) -> Option<Seq<char>>
    decreases urls.len(),
{
    if urls.len() == 0 {
        None
    } else if url_error(urls[0]) is Some {
        url_error(urls[0])
    } else {
        urls_error(urls.drop_first())
    }
}

/// Checks every URL before any is opened.
pub fn check_urls(urls: &Vec<String>) -> (r: Result<(), String>)
    ensures
        outcome(r) == urls_error(texts_of(urls@)),
{
    let mut i: usize = 0;
    assert(texts_of(urls@).skip(0) =~= texts_of(urls@));
    while i < urls.len()
        invariant
            i <= urls.len(),
            urls_error(texts_of(urls@)) == urls_error(texts_of(urls@).skip(i as int)),
        decreases urls.len() - i,
    {
        let ghost rest = texts_of(urls@).skip(i as int);
        assert(rest[0] == urls@[i as int]@);
        assert(rest.drop_first() =~= texts_of(urls@).skip(i + 1));
        if let Err(e) = valid_url(urls[i].as_str()) {
            return Err(e);
        }
        i += 1;
    }
    Ok(())
}

pub const URL_HANDLER: &'static str = "rundll32.exe";
pub const URL_HANDLER_ENTRY: &'static str = "url.dll,FileProtocolHandler";

/// A program and its arguments, as texts.
pub open spec fn commands_view(v: Seq<(String, Vec<String>)>) -> Seq<(Seq<char>, Seq<Seq<char>>)> {
    v.map_values(|c: (String, Vec<String>)| (c.0@, texts_of(c.1@)))
}

/// Each URL given to its Windows handler, one program per URL.
pub open spec fn handler_commands(urls: Seq<Seq<char>>) -> Seq<(Seq<char>, Seq<Seq<char>>)> {
    urls.map_values(|u: Seq<char>| (URL_HANDLER@, seq![URL_HANDLER_ENTRY@, u]))
}

/// The programs opening `urls`: the default browser with all of them, so
/// they become tabs of one window, or, when no browser is registered, each
/// URL's Windows handler. Nothing for no URL.
pub open spec fn url_commands_text(urls: Seq<Seq<char>>, browser: Option<Seq<char>>) -> Seq<
    (Seq<char>, Seq<Seq<char>>),
> {
    if urls.len() == 0 {
        Seq::empty()
    } else {
        match browser {
            Some(b) => seq![(b, browser_command(b, urls))],
            None => handler_commands(urls),
        }
    }
}

/// The programs to start for the project pages, `browser` being the default
/// browser's executable when one is registered.
pub fn url_commands(urls: &Vec<String>, browser: Option<&str>) -> (r: Vec<(String, Vec<String>)>)
    ensures
        commands_view(r@) == url_commands_text(
            texts_of(urls@),
            match browser {
                Some(b) => Some(b@),
                None => None,
            },
        ),
{
    let mut out: Vec<(String, Vec<String>)> = Vec::new();
    if urls.len() == 0 {
        assert(commands_view(out@) =~= Seq::<(Seq<char>, Seq<Seq<char>>)>::empty());
        return out;
    }
    match browser {
        Some(b) => {
            let args = browser_args(b, urls.as_slice());
            out.push((string_from(b), args));
            assert(commands_view(out@) =~= seq![(b@, browser_command(b@, texts_of(urls@)))]);
        },
        None => {
            let mut i: usize = 0;
            while i < urls.len()
                invariant
                    i <= urls.len(),
                    commands_view(out@) == handler_commands(texts_of(urls@).take(i as int)),
                decreases urls.len() - i,
            {
                let ghost before = commands_view(out@);
                let mut args: Vec<String> = Vec::new();
                args.push(string_from(URL_HANDLER_ENTRY));
                args.push(urls[i].clone());
                assert(texts_of(args@) =~= seq![URL_HANDLER_ENTRY@, urls@[i as int]@]);
                let program = string_from(URL_HANDLER);
                out.push((program, args));
                assert(commands_view(out@) =~= before.push(
                    (URL_HANDLER@, seq![URL_HANDLER_ENTRY@, urls@[i as int]@]),
                ));
                assert(handler_commands(texts_of(urls@).take(i + 1)) =~= handler_commands(
                    texts_of(urls@).take(i as int),
                ).push((URL_HANDLER@, seq![URL_HANDLER_ENTRY@, urls@[i as int]@])));
                i += 1;
            }
            assert(texts_of(urls@).take(i as int) =~= texts_of(urls@));
        },
    }
    out
}

pub const REG_PROGRAM: &'static str = "reg.exe";
pub const REG_QUERY: &'static str = "query";
/// Reads the named value of a key.
pub const REG_VALUE: &'static str = "/v";
/// Reads the default value of a key.
pub const REG_DEFAULT_VALUE: &'static str = "/ve";
pub const PROG_ID: &'static str = "ProgId";
/// The user's choice of program for `https` links.
pub const HTTPS_CHOICE: &'static str = "HKCU\\Software\\Microsoft\\Windows\\Shell\\Associations\\UrlAssociations\\https\\UserChoice";
pub const CLASSES_ROOT: &'static str = "HKCR\\";
pub const OPEN_COMMAND: &'static str = "\\shell\\open\\command";
/// The command of the `vscode:` URL handler VS Code registers.
pub const VSCODE_HANDLER: &'static str = "HKCR\\vscode\\shell\\open\\command";
pub const FOLDER_URI: &'static str = "--folder-uri";

/// Arguments of `reg.exe` reading a string value of `key`.
pub fn reg_query_args(key: &str, value: &[String]) -> (args: Vec<String>)
    ensures
        texts_of(args@) == seq![REG_QUERY@, key@] + texts_of(value@),
{
    let mut args: Vec<String> = Vec::new();
    args.push(string_from(REG_QUERY));
    args.push(string_from(key));
    assert(texts_of(args@) =~= seq![REG_QUERY@, key@]);
    push_all(&mut args, value);
    args
}

/// A character of a program identifier.
pub open spec fn prog_id_char(c: char) -> bool {
    is_ascii_alphanumeric(c) || c == '.' || c == '_' || c == '-'
}

/// The shape of a program identifier, which then goes into a registry path.
pub open spec fn prog_id_ok(prog_id: Seq<char>) -> bool {
    prog_id.len() > 0 && forall|i: int| 0 <= i < prog_id.len() ==> prog_id_char(#[trigger] prog_id[i])
}

/// Whether `prog_id` has the shape of a program identifier: ASCII letters,
/// digits, `.`, `_` and `-`.
pub fn valid_prog_id(prog_id: &str) -> (b: bool)
    ensures
        b == prog_id_ok(prog_id@),
{
    let v = chars_of(prog_id);
    if v.len() == 0 {
        return false;
    }
    let mut i: usize = 0;
    while i < v.len()
        invariant
            i <= v.len(),
            v@ == prog_id@,
            forall|j: int| 0 <= j < i ==> prog_id_char(#[trigger] v@[j]),
        decreases v.len() - i,
    {
        let c = v[i];
        if !(is_alphanumeric_char(c) || c == '.' || c == '_' || c == '-') {
            return false;
        }
        i += 1;
    }
    true
}

/// The registry key holding the open command of the program `prog_id`.
pub fn prog_id_command_key(prog_id: &str) -> (key: String)
    ensures
        key@ == CLASSES_ROOT@ + prog_id@ + OPEN_COMMAND@,
{
    let mut key = string_from(CLASSES_ROOT);
    push_str(&mut key, prog_id);
    push_str(&mut key, OPEN_COMMAND);
    key
}

/// Arguments of VS Code opening `folder`; a running VS Code receives it and
/// focuses a window that already shows it.
pub fn vscode_args(folder: &str) -> (args: Vec<String>)
    ensures
        texts_of(args@) == seq![FOLDER_URI@, folder@],
{
    let mut args: Vec<String> = Vec::new();
    args.push(string_from(FOLDER_URI));
    args.push(string_from(folder));
    assert(texts_of(args@) =~= seq![FOLDER_URI@, folder@]);
    args
}

} // verus!
