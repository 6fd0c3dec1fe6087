//! Preparing a WSL project before it opens: every pane's folder is checked
//! first, then the Bash panes' scripts are written to a private temporary
//! folder, which is removed again when the preparation fails. The program
//! runs the actions and answers each with an event.
use vstd::prelude::*;
use crate::launch::{
    alone_text, bash_c, bash_c_with, bash_pane_script, cleanup_text, directory_check_args,
    has_powershell, inaccessible_pane, make_folder_args, new_script_path, powershell_launches,
    powershell_launches_ok, prepared_for, script_in, temp_folder_ok,
    valid_temp_folder, write_script_args, wsl_command, Prepared, DIRECTORY_TEST,
    ERR_TEMP_FOLDER, INACCESSIBLE_PANE, INACCESSIBLE_PANE_END, MAKE_FOLDER, WRITE_SCRIPT,
};
use crate::launch::{choose_distribution, distribution_choice, prepare_ssh, ssh_prepared};
use crate::model::{leaves, Config, Project, ResolvedPane, Shell, Template};
use crate::resolve::{find_project, find_template, resolve_error, resolved_as, vscode_text};
use crate::scripts::bash_script;
use crate::strmap::{lookup, StrMap};
use crate::terminal::{tabs_args, PaneLaunch};
use crate::text::{string_from, texts_of, trim, trim_str};

verus! {

/// What the program does next for a preparation.
#[derive(Debug)]
pub enum PrepareAction {
    /// Check that the folder of pane `k` can be entered, running `wsl.exe`
    /// with these arguments; answered by `Done`.
    CheckFolder(usize, Vec<String>),
    /// Look for PowerShell 7; answered by `Found`.
    FindPwsh,
    /// Create the scripts folder, running `wsl.exe` with these arguments;
    /// answered by `Printed`.
    MakeFolder(Vec<String>),
    /// Write `script` to the input of `wsl.exe` run with `args`; answered by
    /// `Done`.
    WriteScript { args: Vec<String>, script: String },
    /// The preparation is over. After an error, the scripts folder of
    /// `prepared`, when there is one, is to be removed.
    Finish(Result<(), String>),
}

/// How an action went.
#[derive(Debug)]
pub enum PrepareEvent {
    Done(Result<(), String>),
    Found(bool),
    Printed(Result<String, String>),
}

/// A WSL project being prepared.
#[derive(Debug)]
pub struct Preparation<'a> {
    pub project: &'a Project,
    pub template: &'a Template,
    /// The project's panes, customizations applied.
    pub panes: Vec<ResolvedPane>,
    /// The distribution the panes run in.
    pub distribution: String,
    pub prepared: Prepared,
    /// The places of the Bash panes in `panes`.
    pub bash: Vec<usize>,
    /// How many Bash panes have their script written.
    pub written: usize,
    /// The path of the script being written.
    pub path: String,
    pub waiting: PrepareAction,
}

/// Whether `e` answers `a`.
pub open spec fn prepare_answers(a: PrepareAction, e: PrepareEvent) -> bool {
    match a {
        PrepareAction::CheckFolder(_, _) => e is Done,
        PrepareAction::FindPwsh => e is Found,
        PrepareAction::MakeFolder(_) => e is Printed,
        PrepareAction::WriteScript { .. } => e is Done,
        PrepareAction::Finish(_) => false,
    }
}

/// The places of the Bash panes among `panes`, in order.
pub open spec fn bash_places(panes: Seq<ResolvedPane>) -> Seq<int>
    decreases panes.len(),
{
    if panes.len() == 0 {
        Seq::empty()
    } else if panes.last().shell == Shell::Bash {
        bash_places(panes.drop_last()).push(panes.len() - 1)
    } else {
        bash_places(panes.drop_last())
    }
}

/// `wsl.exe` checking the folder of pane `k`.
pub open spec fn check_folder_args(s: Preparation, k: int) -> Seq<Seq<char>> {
    wsl_command(s.project.distribution@, bash_c_with(DIRECTORY_TEST@, s.panes@[k].directory@))
}

/// The error for pane `k`, whose folder cannot be entered.
pub open spec fn inaccessible_text(s: Preparation, k: int) -> Seq<char> {
    INACCESSIBLE_PANE@ + s.panes@[k].name@ + INACCESSIBLE_PANE_END@ + s.panes@[k].directory@
}

/// The preparation stops with `result`, its scripts folder, if any, to remove.
pub open spec fn prepare_finished(s: Preparation, result: Result<(), Seq<char>>) -> bool {
    s.waiting matches PrepareAction::Finish(r) && match (r, result) {
        (Ok(()), Ok(())) => true,
        (Err(e), Err(t)) => e@ == t,
        _ => false,
    }
}

/// The PowerShell panes' launches are set, PowerShell 7 being used when
/// `pwsh`; next the scripts folder is made, or, without Bash pane, the
/// preparation is over.
pub open spec fn launches_set(s: Preparation, pwsh: bool) -> bool {
    &&& powershell_launches_ok(s.prepared.launches@, s.panes@, s.distribution@, pwsh)
    &&& s.prepared.folder is None
    &&& if s.bash.len() == 0 {
        prepare_finished(s, Ok(()))
    } else {
        s.waiting matches PrepareAction::MakeFolder(args) && texts_of(args@) == wsl_command(
            s.project.distribution@,
            bash_c(MAKE_FOLDER@),
        )
    }
}

/// Every folder is checked: PowerShell 7 is looked for when a pane runs
/// PowerShell, and otherwise the launches are set.
pub open spec fn folders_checked(s: Preparation) -> bool {
    if exists|i: int| 0 <= i < s.panes.len() && #[trigger] s.panes@[i].shell == Shell::Powershell {
        s.waiting is FindPwsh && s.prepared.folder is None
    } else {
        launches_set(s, false)
    }
}

/// The next Bash pane's script is written, a new one in the scripts folder;
/// once all are, the project's command line is checked and the preparation
/// is over.
pub open spec fn writing(s: Preparation) -> bool {
    if s.written < s.bash.len() {
        let pane = s.panes@[s.bash@[s.written as int] as int];
        let folder = s.prepared.folder->Some_0@;
        s.waiting matches PrepareAction::WriteScript { args, script } && {
            &&& script_in(folder, s.path@)
            &&& texts_of(args@) == wsl_command(
                s.project.distribution@,
                bash_c_with(WRITE_SCRIPT@, s.path@),
            )
            &&& script@ == cleanup_text(s.path@, folder) + bash_script(
                pane.directory@,
                texts_of(pane.commands@),
            )
        }
    } else {
        let p = s.prepared;
        match alone_text(p.layout, p.distribution@, p.profile@, p.launches@) {
            Ok(_) => prepare_finished(s, Ok(())),
            Err(e) => prepare_finished(s, Err(e)),
        }
    }
}

/// What holds at each point of a preparation.
pub open spec fn preparation_ok(s: Preparation) -> bool {
    &&& s.bash@.len() == bash_places(s.panes@).len()
    &&& forall|i: int| 0 <= i < s.bash.len() ==> #[trigger] s.bash@[i] == bash_places(s.panes@)[i]
    &&& forall|i: int| 0 <= i < s.bash.len() ==> 0 <= #[trigger] s.bash@[i] < s.panes.len()
    &&& s.written <= s.bash.len()
    &&& match s.waiting {
        PrepareAction::CheckFolder(k, args) => k < s.panes.len() && texts_of(args@)
            == check_folder_args(s, k as int) && s.prepared.folder is None && s.written == 0,
        PrepareAction::FindPwsh => s.prepared.folder is None && s.written == 0,
        PrepareAction::MakeFolder(_) => s.bash.len() > 0 && s.prepared.folder is None && s.written
            == 0,
        PrepareAction::WriteScript { .. } => {
            &&& s.written < s.bash.len()
            &&& s.prepared.folder matches Some(f) && temp_folder_ok(f@)
        },
        PrepareAction::Finish(_) => true,
    }
}

/// The places of the Bash panes among `panes`.
fn find_bash(panes: &Vec<ResolvedPane>) -> (places: Vec<usize>)
    ensures
        places@.len() == bash_places(panes@).len(),
        forall|i: int| 0 <= i < places.len() ==> #[trigger] places@[i] == bash_places(panes@)[i],
        forall|i: int| 0 <= i < places.len() ==> 0 <= #[trigger] places@[i] < panes.len(),
{
    let mut places: Vec<usize> = Vec::new();
    let mut i: usize = 0;
    while i < panes.len()
        invariant
            i <= panes.len(),
            places@.len() == bash_places(panes@.take(i as int)).len(),
            forall|j: int|
                0 <= j < places.len() ==> #[trigger] places@[j] == bash_places(
                    panes@.take(i as int),
                )[j],
            forall|j: int| 0 <= j < places.len() ==> 0 <= #[trigger] places@[j] < i,
        decreases panes.len() - i,
    {
        assert(panes@.take(i + 1).drop_last() =~= panes@.take(i as int));
        if panes[i].shell == Shell::Bash {
            places.push(i);
        }
        i += 1;
    }
    assert(panes@.take(i as int) =~= panes@);
    places
}

impl<'a> Preparation<'a> {
    /// The preparation of `project`, on `template`, whose panes run in
    /// `distribution` with `profile`; it starts with the first pane's folder.
    pub fn new(
        project: &'a Project,
        template: &'a Template,
        panes: Vec<ResolvedPane>,
        distribution: String,
        profile: String,
        vscode: String,
    ) -> (s: Preparation<'a>)
        ensures
            preparation_ok(s),
            s.project == project,
            s.template == template,
            s.panes@ == panes@,
            s.distribution == distribution,
            prepared_for(s.prepared, *project, *template, profile@, vscode@),
            s.written == 0,
            if panes.len() > 0 {
                s.waiting matches PrepareAction::CheckFolder(k, _) && k == 0
            } else {
                folders_checked(s)
            },
    {
        let bash = find_bash(&panes);
        let mut s = Preparation {
            project,
            template,
            panes,
            distribution,
            prepared: Prepared {
                layout: template.layout.clone(),
                distribution: project.distribution.clone(),
                profile,
                launches: StrMap::new(),
                url: string_from(project.url_to_open()),
                vscode,
                folder: None,
            },
            bash,
            written: 0,
            path: String::new(),
            waiting: PrepareAction::Finish(Ok(())),
        };
        if s.panes.len() > 0 {
            let args = directory_check_args(s.project.distribution.as_str(), s.panes[0].directory.as_str());
            s.waiting = PrepareAction::CheckFolder(0, args);
        } else {
            s.after_checks();
        }
        s
    }

    /// Once every folder is checked.
    fn after_checks(&mut self)
        requires
            old(self).prepared.folder is None,
            old(self).written == 0,
            old(self).bash@.len() == bash_places(old(self).panes@).len(),
            forall|i: int|
                0 <= i < old(self).bash.len() ==> #[trigger] old(self).bash@[i] == bash_places(
                    old(self).panes@,
                )[i],
            forall|i: int|
                0 <= i < old(self).bash.len() ==> 0 <= #[trigger] old(self).bash@[i] < old(self).panes.len(),
        ensures
            preparation_ok(*final(self)),
            folders_checked(*final(self)),
            final(self).project == old(self).project,
            final(self).template == old(self).template,
            final(self).panes == old(self).panes,
            final(self).distribution == old(self).distribution,
            final(self).bash == old(self).bash,
            final(self).written == old(self).written,
            prepared_kept(old(self).prepared, final(self).prepared),
    {
        if has_powershell(&self.panes) {
            self.waiting = PrepareAction::FindPwsh;
        } else {
            self.set_launches(false);
        }
    }

    /// Sets the PowerShell panes' launches.
    fn set_launches(&mut self, pwsh: bool)
        requires
            old(self).prepared.folder is None,
            old(self).written == 0,
            old(self).bash@.len() == bash_places(old(self).panes@).len(),
            forall|i: int|
                0 <= i < old(self).bash.len() ==> #[trigger] old(self).bash@[i] == bash_places(
                    old(self).panes@,
                )[i],
            forall|i: int|
                0 <= i < old(self).bash.len() ==> 0 <= #[trigger] old(self).bash@[i] < old(self).panes.len(),
        ensures
            preparation_ok(*final(self)),
            launches_set(*final(self), pwsh),
            final(self).project == old(self).project,
            final(self).template == old(self).template,
            final(self).panes == old(self).panes,
            final(self).distribution == old(self).distribution,
            final(self).bash == old(self).bash,
            final(self).written == old(self).written,
            prepared_kept(old(self).prepared, final(self).prepared),
    {
        self.prepared.launches = powershell_launches(&self.panes, self.distribution.as_str(), pwsh);
        if self.bash.len() == 0 {
            self.waiting = PrepareAction::Finish(Ok(()));
        } else {
            self.waiting = PrepareAction::MakeFolder(make_folder_args(self.project.distribution.as_str()));
        }
    }

    /// Writes the next Bash pane's script, or, once all are written, checks
    /// the project's command line.
    fn write_next(&mut self)
        requires
            old(self).written <= old(self).bash.len(),
            old(self).bash@.len() == bash_places(old(self).panes@).len(),
            forall|i: int|
                0 <= i < old(self).bash.len() ==> #[trigger] old(self).bash@[i] == bash_places(
                    old(self).panes@,
                )[i],
            forall|i: int|
                0 <= i < old(self).bash.len() ==> 0 <= #[trigger] old(self).bash@[i] < old(self).panes.len(),
            old(self).prepared.folder matches Some(f) && temp_folder_ok(f@),
        ensures
            preparation_ok(*final(self)),
            writing(*final(self)),
            final(self).project == old(self).project,
            final(self).template == old(self).template,
            final(self).panes == old(self).panes,
            final(self).distribution == old(self).distribution,
            final(self).bash == old(self).bash,
            final(self).written == old(self).written,
            final(self).prepared == old(self).prepared,
    {
        if self.written < self.bash.len() {
            let folder = match &self.prepared.folder {
                Some(f) => f.clone(),
                None => String::new(),
            };
            let place = self.bash[self.written];
            let path = new_script_path(folder.as_str());
            let script = bash_pane_script(path.as_str(), folder.as_str(), &self.panes[place]);
            let args = write_script_args(self.project.distribution.as_str(), path.as_str());
            self.path = path;
            self.waiting = PrepareAction::WriteScript { args, script };
        } else {
            let tab = self.prepared.tab();
            let tabs = [tab];
            assert(tabs@ =~= seq![tab]);
            let r = tabs_args(tabs.as_slice());
            proof {
                crate::launch::lemma_alone_text(tab);
            }
            match r {
                Ok(_) => {
                    self.waiting = PrepareAction::Finish(Ok(()));
                },
                Err(e) => {
                    self.waiting = PrepareAction::Finish(Err(e));
                },
            }
        }
    }

    /// The preparation after `event` answered the action under way.
    pub fn step(&mut self, event: PrepareEvent)
        requires
            preparation_ok(*old(self)),
            prepare_answers(old(self).waiting, event),
        ensures
            preparation_ok(*final(self)),
            final(self).project == old(self).project,
            final(self).template == old(self).template,
            final(self).panes == old(self).panes,
            final(self).distribution == old(self).distribution,
            prepared_kept(old(self).prepared, final(self).prepared),
            match (old(self).waiting, event) {
                (PrepareAction::CheckFolder(k, _), PrepareEvent::Done(done)) => match done {
                    Err(_) => prepare_finished(
                        *final(self),
                        Err(inaccessible_text(*old(self), k as int)),
                    ) && final(self).prepared.folder is None,
                    Ok(()) => if k + 1 < old(self).panes.len() {
                        final(self).waiting matches PrepareAction::CheckFolder(j, _) && j == k + 1
                    } else {
                        folders_checked(*final(self))
                    },
                },
                (PrepareAction::FindPwsh, PrepareEvent::Found(pwsh)) => launches_set(
                    *final(self),
                    pwsh,
                ),
                (PrepareAction::MakeFolder(_), PrepareEvent::Printed(printed)) => match printed {
                    Err(e) => prepare_finished(*final(self), Err(e@)) && final(self).prepared.folder is None,
                    Ok(out) => if temp_folder_ok(trim(out@)) {
                        &&& final(self).prepared.folder matches Some(f) && f@ == trim(out@)
                        &&& final(self).written == 0
                        &&& writing(*final(self))
                    } else {
                        prepare_finished(*final(self), Err(ERR_TEMP_FOLDER@)) && final(self).prepared.folder is None
                    },
                },
                (PrepareAction::WriteScript { .. }, PrepareEvent::Done(done)) => match done {
                    // The scripts folder stays recorded, to be removed.
                    Err(e) => prepare_finished(*final(self), Err(e@)) && final(self).prepared.folder
                        == old(self).prepared.folder,
                    Ok(()) => {
                        &&& final(self).written == old(self).written + 1
                        &&& final(self).prepared.folder == old(self).prepared.folder
                        &&& forall|id: Seq<char>| #[trigger]
                            lookup(final(self).prepared.launches@, id) == if id == old(self).panes@[old(self).bash@[old(self).written as int] as int].id@ {
                                Some(PaneLaunch::Bash(old(self).path))
                            } else {
                                lookup(old(self).prepared.launches@, id)
                            }
                        &&& writing(*final(self))
                    },
                },
                _ => false,
            },
    {
        match event {
            PrepareEvent::Done(done) => {
                if let PrepareAction::CheckFolder(k, _) = &self.waiting {
                    let k = *k;
                    match done {
                        Err(_) => {
                            let e = inaccessible_pane(self.panes[k].name.as_str(), self.panes[k].directory.as_str());
                            self.waiting = PrepareAction::Finish(Err(e));
                        },
                        Ok(()) => {
                            if k + 1 < self.panes.len() {
                                let args = directory_check_args(
                                    self.project.distribution.as_str(),
                                    self.panes[k + 1].directory.as_str(),
                                );
                                self.waiting = PrepareAction::CheckFolder(k + 1, args);
                            } else {
                                self.after_checks();
                            }
                        },
                    }
                } else {
                    match done {
                        Err(e) => {
                            self.waiting = PrepareAction::Finish(Err(e));
                        },
                        Ok(()) => {
                            let place = self.bash[self.written];
                            let id = self.panes[place].id.clone();
                            let path = self.path.clone();
                            self.prepared.launches.insert(id, PaneLaunch::Bash(path));
                            self.written = self.written + 1;
                            self.write_next();
                        },
                    }
                }
            },
            PrepareEvent::Found(pwsh) => {
                self.set_launches(pwsh);
            },
            PrepareEvent::Printed(printed) => {
                match printed {
                    Err(e) => {
                        self.waiting = PrepareAction::Finish(Err(e));
                    },
                    Ok(out) => {
                        let folder = trim_str(out.as_str());
                        if valid_temp_folder(folder.as_str()) {
                            self.prepared.folder = Some(folder);
                            self.written = 0;
                            self.write_next();
                        } else {
                            self.waiting = PrepareAction::Finish(Err(string_from(ERR_TEMP_FOLDER)));
                        }
                    },
                }
            },
        }
    }
}

/// What a step keeps of the prepared project: everything but its launches
/// and scripts folder.
pub open spec fn prepared_kept(a: Prepared, b: Prepared) -> bool {
    &&& a.layout == b.layout
    &&& a.distribution == b.distribution
    &&& a.profile == b.profile
    &&& a.url == b.url
    &&& a.vscode == b.vscode
}

/// How a project's preparation starts.
#[derive(Debug)]
pub enum Begun<'a> {
    /// The project cannot be prepared.
    Failed(String),
    /// A project on an SSH host, ready: nothing is written beforehand.
    Ready(Prepared),
    /// A WSL project, whose folders are checked and scripts written next.
    Steps(Preparation<'a>),
}

/// `panes` are the panes of `template` in project `p`, customizations
/// applied, in order.
pub open spec fn resolved_panes(panes: Seq<ResolvedPane>, p: Project, t: Template) -> bool {
    &&& panes.len() == leaves(t.layout).len()
    &&& forall|i: int|
        0 <= i < panes.len() ==> resolved_as(#[trigger] panes[i], p, leaves(t.layout)[i])
}

/// What starting the preparation of project `id` gives, `available` listing
/// the installed distributions.
pub open spec fn begun_as(b: Begun, config: Config, id: Seq<char>, available: Seq<Seq<char>>) -> bool {
    match resolve_error(config, id) {
        Some(e) => b matches Begun::Failed(m) && m@ == e,
        None => {
            let project = find_project(config.projects@, id)->Some_0;
            let template = find_template(config.templates@, project.template_id@)->Some_0;
            match distribution_choice(project, available) {
                Err(e) => b matches Begun::Failed(m) && m@ == e,
                Ok((d, profile)) => {
                    let vscode = vscode_text(project, d);
                    if project.host@.len() > 0 {
                        exists|panes: Seq<ResolvedPane>|
                            resolved_panes(panes, project, template) && match b {
                                Begun::Ready(p) => ssh_prepared(
                                    Ok(p),
                                    project,
                                    template,
                                    panes,
                                    profile,
                                    vscode,
                                ),
                                Begun::Failed(e) => ssh_prepared(
                                    Err(e),
                                    project,
                                    template,
                                    panes,
                                    profile,
                                    vscode,
                                ),
                                Begun::Steps(_) => false,
                            }
                    } else {
                        b matches Begun::Steps(s) && {
                            &&& *s.project == project
                            &&& *s.template == template
                            &&& resolved_panes(s.panes@, project, template)
                            &&& s.distribution@ == d
                            &&& prepared_for(s.prepared, project, template, profile, vscode)
                            &&& preparation_ok(s)
                            &&& s.written == 0
                            &&& if s.panes.len() > 0 {
                                s.waiting matches PrepareAction::CheckFolder(k, _) && k == 0
                            } else {
                                folders_checked(s)
                            }
                        }
                    }
                },
            }
        },
    }
}

/// Starts preparing project `id`: a project on an SSH host is ready at once,
/// a WSL project has its folders checked and its scripts written next.
/// `available` lists the installed distributions, the default one first.
pub fn begin<'a>(config: &'a Config, id: &str, available: &Vec<String>) -> (b: Begun<'a>)
    requires
        available.len() > 0,
    ensures
        begun_as(b, *config, id@, texts_of(available@)),
{
    let (project, template, panes) = match config.resolve(id) {
        Err(e) => return Begun::Failed(e),
        Ok(r) => r,
    };
    let (distribution, profile) = match choose_distribution(project, available) {
        Err(e) => return Begun::Failed(e),
        Ok(r) => r,
    };
    let vscode = project.vscode_uri(distribution.as_str());
    let ghost resolved = panes@;
    assert(resolved_panes(resolved, *project, *template));
    if !project.host.as_str().is_empty() {
        let r = prepare_ssh(project, template, &panes, profile, vscode);
        let ghost outcome = r;
        return match r {
            Ok(p) => {
                assert(outcome == Ok::<Prepared, String>(p));
                Begun::Ready(p)
            },
            Err(e) => {
                assert(outcome == Err::<Prepared, String>(e));
                Begun::Failed(e)
            },
        };
    }
    Begun::Steps(Preparation::new(project, template, panes, distribution, profile, vscode))
}

} // verus!
