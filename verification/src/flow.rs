//! The order of a launch: every project is prepared before anything opens,
//! and a failure stops it, removing the scripts of the projects that will not
//! start. The program runs the actions and answers each with an event.
use vstd::prelude::*;
use crate::launch::{
    alone_text, distinct_pages, failure_text, folders_of, launch_failure, pages_to_open, urls_of,
    Prepared, ERR_NO_DISTRIBUTION, ERR_NO_TERMINAL, ERR_NO_VSCODE,
};
use crate::model::Config;
use crate::terminal::{
    args_outcome, tabs_args, tabs_text, Args, TabLaunch, ERR_NO_PROJECT,
};
use crate::text::{string_from, texts_of};
use crate::validate::{config_error, outcome};

verus! {

/// How several projects open.
#[derive(Clone, Copy, Debug, PartialEq, Eq, Structural)]
pub enum LaunchMode {
    /// One window with a tab per project.
    Tabs,
    /// One window per project.
    Windows,
}

/// What the program does next for a launch.
#[derive(Debug)]
pub enum LaunchAction {
    /// Look for `wt.exe`; answered by `Found`.
    FindTerminal,
    /// List the installed distributions; answered by `Listed`.
    ListDistributions,
    /// Prepare the project `ids[k]`; answered by `Prepared`.
    Prepare(usize),
    /// Look for VS Code; answered by `Editor`.
    FindEditor,
    /// Open the `urls` in the browser; answered by `Done`.
    OpenPages,
    /// Start the `editor` on `folders[k]`; answered by `Done`.
    StartEditor(usize),
    /// Run Windows Terminal with these arguments; answered by `Done`.
    RunTerminal(Vec<String>),
    /// Remove the scripts of `prepared[discard_from..]`, and report `result`.
    Finish { discard_from: usize, result: Result<(), String> },
}

/// How an action went.
#[derive(Debug)]
pub enum LaunchEvent {
    Found(bool),
    Listed(Result<Vec<String>, String>),
    Prepared(Result<Prepared, String>),
    Editor(Option<String>),
    Done(Result<(), String>),
}

/// A launch under way.
#[derive(Debug)]
pub struct Launch {
    pub config: Config,
    pub ids: Vec<String>,
    pub mode: LaunchMode,
    /// Installed distributions, the default one first.
    pub available: Vec<String>,
    /// The projects prepared so far, in the order of `ids`.
    pub prepared: Vec<Prepared>,
    /// Pages to open, each once.
    pub urls: Vec<String>,
    /// Folders to open in VS Code, each once.
    pub folders: Vec<String>,
    /// VS Code's executable.
    pub editor: String,
    /// The project whose window opens next, one window per project.
    pub next: usize,
    /// The action under way.
    pub waiting: LaunchAction,
}

/// Whether `e` answers `a`.
pub open spec fn answers(a: LaunchAction, e: LaunchEvent) -> bool {
    match a {
        LaunchAction::FindTerminal => e is Found,
        LaunchAction::ListDistributions => e is Listed,
        LaunchAction::Prepare(_) => e is Prepared,
        LaunchAction::FindEditor => e is Editor,
        LaunchAction::OpenPages => e is Done,
        LaunchAction::StartEditor(_) => e is Done,
        LaunchAction::RunTerminal(_) => e is Done,
        LaunchAction::Finish { .. } => false,
    }
}

/// Whether `a` opens something the user sees.
pub open spec fn opens(a: LaunchAction) -> bool {
    a is OpenPages || a is StartEditor || a is RunTerminal
}

/// The tabs show the prepared projects, one each, in order.
pub open spec fn tabs_match(tabs: Seq<TabLaunch>, ps: Seq<Prepared>) -> bool {
    &&& tabs.len() == ps.len()
    &&& forall|i: int|
        0 <= i < tabs.len() ==> {
            &&& *(#[trigger] tabs[i]).layout == ps[i].layout
            &&& tabs[i].distribution@ == ps[i].distribution@
            &&& tabs[i].profile@ == ps[i].profile@
            &&& *tabs[i].launches == ps[i].launches
        }
}

/// `r` is the Windows Terminal command line of the launch at this point:
/// every project in tabs of one window, or project `next` in a window alone.
pub open spec fn terminal_outcome(s: Launch, r: Result<Args, Seq<char>>) -> bool {
    match s.mode {
        LaunchMode::Tabs => exists|tabs: Seq<TabLaunch>|
            tabs_match(tabs, s.prepared@) && tabs_text(tabs) == r,
        LaunchMode::Windows => {
            let p = s.prepared@[s.next as int];
            alone_text(p.layout, p.distribution@, p.profile@, p.launches@) == r
        },
    }
}

/// Every project is prepared, and the pages and folders to open are known.
pub open spec fn ready(s: Launch) -> bool {
    &&& s.ids.len() > 0
    &&& s.prepared.len() == s.ids.len()
    &&& texts_of(s.urls@) == distinct_pages(urls_of(s.prepared@))
    &&& texts_of(s.folders@) == distinct_pages(folders_of(s.prepared@))
}

/// What holds at each point of a launch.
pub open spec fn launch_ok(s: Launch) -> bool {
    &&& s.prepared.len() <= s.ids.len()
    &&& match s.waiting {
        LaunchAction::FindTerminal => s.ids.len() > 0 && s.prepared.len() == 0,
        LaunchAction::ListDistributions => s.ids.len() > 0 && s.prepared.len() == 0,
        LaunchAction::Prepare(k) => k == s.prepared.len() && k < s.ids.len() && s.available.len()
            > 0,
        LaunchAction::FindEditor => ready(s) && s.folders.len() > 0,
        LaunchAction::OpenPages => ready(s),
        LaunchAction::StartEditor(k) => ready(s) && k < s.folders.len(),
        LaunchAction::RunTerminal(args) => {
            &&& ready(s)
            &&& s.next < s.prepared.len()
            &&& (s.mode == LaunchMode::Tabs ==> s.next == 0)
            &&& terminal_outcome(s, Ok(texts_of(args@)))
        },
        LaunchAction::Finish { discard_from, .. } => discard_from <= s.prepared.len(),
    }
}

/// The launch stops with `result`, the scripts of `prepared[from..]` removed.
pub open spec fn finished_with(s: Launch, from: nat, result: Result<(), Seq<char>>) -> bool {
    s.waiting matches LaunchAction::Finish { discard_from, result: r } && discard_from == from
        && match (r, result) {
        (Ok(()), Ok(())) => true,
        (Err(e), Err(t)) => e@ == t,
        _ => false,
    }
}

/// The first step after every project is prepared, VS Code found and the
/// pages opened: the editor on the first folder, or Windows Terminal.
pub open spec fn after_pages(s: Launch) -> bool {
    if s.folders.len() > 0 {
        s.waiting == LaunchAction::StartEditor(0)
    } else {
        terminal_started(s)
    }
}

/// Windows Terminal is run for the project `next` (all of them in tabs), or
/// the launch stops on its command line's error, the scripts of the projects
/// not started removed.
pub open spec fn terminal_started(s: Launch) -> bool {
    match s.waiting {
        LaunchAction::RunTerminal(args) => terminal_outcome(s, Ok(texts_of(args@))),
        LaunchAction::Finish { discard_from, result: Err(e) } => discard_from == s.next
            && terminal_outcome(s, Err(e@)),
        _ => false,
    }
}

impl Launch {
    /// A launch of the projects `ids`, once the configuration is valid.
    pub fn new(config: Config, ids: Vec<String>, mode: LaunchMode) -> (s: Launch)
        ensures
            launch_ok(s),
            s.config == config,
            s.ids@ == ids@,
            s.mode == mode,
            s.prepared@.len() == 0,
            match config_error(config) {
                Some(e) => finished_with(s, 0, Err(e)),
                None => if ids@.len() == 0 {
                    finished_with(s, 0, Err(ERR_NO_PROJECT@))
                } else {
                    s.waiting is FindTerminal
                },
            },
    {
        let checked = config.validate();
        let waiting = match checked {
            Err(e) => LaunchAction::Finish { discard_from: 0, result: Err(e) },
            Ok(()) => if ids.len() == 0 {
                LaunchAction::Finish { discard_from: 0, result: Err(string_from(ERR_NO_PROJECT)) }
            } else {
                LaunchAction::FindTerminal
            },
        };
        Launch {
            config,
            ids,
            mode,
            available: Vec::new(),
            prepared: Vec::new(),
            urls: Vec::new(),
            folders: Vec::new(),
            editor: String::new(),
            next: 0,
            waiting,
        }
    }

    /// Stops the launch with `result`, removing the scripts of
    /// `prepared[from..]`.
    fn finish(&mut self, from: usize, result: Result<(), String>)
        requires
            from <= old(self).prepared.len(),
        ensures
            final(self).waiting == (LaunchAction::Finish { discard_from: from, result }),
            final(self).config == old(self).config,
            final(self).ids == old(self).ids,
            final(self).mode == old(self).mode,
            final(self).available == old(self).available,
            final(self).prepared == old(self).prepared,
            final(self).urls == old(self).urls,
            final(self).folders == old(self).folders,
            final(self).editor == old(self).editor,
            final(self).next == old(self).next,
    {
        self.waiting = LaunchAction::Finish { discard_from: from, result };
    }

    /// Runs Windows Terminal for project `next`, or for all of them in tabs.
    fn start_terminal(&mut self)
        requires
            ready(*old(self)),
            old(self).next < old(self).prepared.len(),
            old(self).mode == LaunchMode::Tabs ==> old(self).next == 0,
        ensures
            final(self).config == old(self).config,
            final(self).ids == old(self).ids,
            final(self).mode == old(self).mode,
            final(self).available == old(self).available,
            final(self).prepared == old(self).prepared,
            final(self).urls == old(self).urls,
            final(self).folders == old(self).folders,
            final(self).editor == old(self).editor,
            final(self).next == old(self).next,
            terminal_started(*final(self)),
            launch_ok(*final(self)),
    {
        let r = match self.mode {
            LaunchMode::Tabs => {
                let mut tabs: Vec<TabLaunch> = Vec::new();
                let mut i: usize = 0;
                while i < self.prepared.len()
                    invariant
                        i <= self.prepared.len(),
                        tabs.len() == i,
                        forall|j: int|
                            0 <= j < i ==> {
                                &&& *(#[trigger] tabs@[j]).layout == self.prepared@[j].layout
                                &&& tabs@[j].distribution@ == self.prepared@[j].distribution@
                                &&& tabs@[j].profile@ == self.prepared@[j].profile@
                                &&& *tabs@[j].launches == self.prepared@[j].launches
                            },
                    decreases self.prepared.len() - i,
                {
                    tabs.push(self.prepared[i].tab());
                    i += 1;
                }
                let r = tabs_args(tabs.as_slice());
                assert(tabs_match(tabs@, self.prepared@));
                assert(terminal_outcome(*self, args_outcome(r)));
                r
            },
            LaunchMode::Windows => {
                let tab = self.prepared[self.next].tab();
                let tabs = [tab];
                assert(tabs@ =~= seq![tab]);
                let r = tabs_args(tabs.as_slice());
                proof {
                    crate::launch::lemma_alone_text(tab);
                }
                r
            },
        };
        let ghost outcome = args_outcome(r);
        assert(terminal_outcome(*self, outcome));
        match r {
            Ok(args) => {
                self.waiting = LaunchAction::RunTerminal(args);
            },
            Err(e) => {
                let from = self.next;
                self.finish(from, Err(e));
            },
        }
    }

    /// The launch after `event` answered the action under way.
    pub fn step(&mut self, event: LaunchEvent)
        requires
            launch_ok(*old(self)),
            answers(old(self).waiting, event),
        ensures
            launch_ok(*final(self)),
            final(self).config == old(self).config,
            final(self).ids == old(self).ids,
            final(self).mode == old(self).mode,
            // Nothing opens before every project is prepared.
            opens(final(self).waiting) ==> final(self).prepared.len() == final(self).ids.len(),
            match (old(self).waiting, event) {
                (LaunchAction::FindTerminal, LaunchEvent::Found(found)) => if found {
                    final(self).waiting is ListDistributions
                } else {
                    finished_with(*final(self), 0, Err(ERR_NO_TERMINAL@))
                },
                (LaunchAction::ListDistributions, LaunchEvent::Listed(listed)) => match listed {
                    Err(e) => finished_with(*final(self), 0, Err(e@)),
                    Ok(v) => if v@.len() == 0 {
                        finished_with(*final(self), 0, Err(ERR_NO_DISTRIBUTION@))
                    } else {
                        final(self).waiting == LaunchAction::Prepare(0) && final(self).available
                            == v
                    },
                },
                (LaunchAction::Prepare(k), LaunchEvent::Prepared(prepared)) => match prepared {
                    // A project that cannot be prepared stops the launch
                    // before anything opens, and removes every script written.
                    Err(e) => {
                        &&& final(self).prepared == old(self).prepared
                        &&& finished_with(
                            *final(self),
                            0,
                            Err(
                                failure_text(
                                    old(self).config,
                                    old(self).ids.len() as nat,
                                    old(self).ids@[k as int]@,
                                    e@,
                                ),
                            ),
                        )
                    },
                    Ok(p) => {
                        &&& final(self).prepared@ == old(self).prepared@.push(p)
                        &&& if k + 1 < old(self).ids.len() {
                            final(self).waiting == LaunchAction::Prepare((k + 1) as usize)
                        } else if final(self).folders.len() > 0 {
                            final(self).waiting is FindEditor
                        } else {
                            final(self).waiting is OpenPages
                        }
                    },
                },
                (LaunchAction::FindEditor, LaunchEvent::Editor(found)) => match found {
                    None => finished_with(*final(self), 0, Err(ERR_NO_VSCODE@)),
                    Some(editor) => final(self).waiting is OpenPages && final(self).editor
                        == editor,
                },
                (LaunchAction::OpenPages, LaunchEvent::Done(done)) => match done {
                    Err(e) => finished_with(*final(self), 0, Err(e@)),
                    Ok(()) => after_pages(*final(self)),
                },
                (LaunchAction::StartEditor(k), LaunchEvent::Done(done)) => match done {
                    Err(e) => finished_with(*final(self), 0, Err(e@)),
                    Ok(()) => if k + 1 < old(self).folders.len() {
                        final(self).waiting == LaunchAction::StartEditor((k + 1) as usize)
                    } else {
                        terminal_started(*final(self))
                    },
                },
                (LaunchAction::RunTerminal(_), LaunchEvent::Done(done)) => match done {
                    // Windows Terminal failed: the scripts of the projects it
                    // did not start are removed.
                    Err(e) => finished_with(*final(self), old(self).next as nat, Err(e@)),
                    Ok(()) => if old(self).mode == LaunchMode::Windows && old(self).next + 1
                        < old(self).prepared.len() {
                        final(self).next == old(self).next + 1 && terminal_started(*final(self))
                    } else {
                        finished_with(*final(self), old(self).prepared.len() as nat, Ok(()))
                    },
                },
                _ => false,
            },
    {
        match event {
            LaunchEvent::Found(found) => {
                if found {
                    self.waiting = LaunchAction::ListDistributions;
                } else {
                    self.finish(0, Err(string_from(ERR_NO_TERMINAL)));
                }
            },
            LaunchEvent::Listed(listed) => {
                match listed {
                    Err(e) => self.finish(0, Err(e)),
                    Ok(v) => {
                        if v.len() == 0 {
                            self.finish(0, Err(string_from(ERR_NO_DISTRIBUTION)));
                        } else {
                            self.available = v;
                            self.waiting = LaunchAction::Prepare(0);
                        }
                    },
                }
            },
            LaunchEvent::Prepared(prepared) => {
                let k = self.prepared.len();
                match prepared {
                    Err(e) => {
                        let message = launch_failure(&self.config, &self.ids, self.ids[k].as_str(), e);
                        self.finish(0, Err(message));
                    },
                    Ok(p) => {
                        self.prepared.push(p);
                        if k + 1 < self.ids.len() {
                            self.waiting = LaunchAction::Prepare(k + 1);
                        } else {
                            let (urls, folders) = pages_to_open(&self.prepared);
                            self.urls = urls;
                            self.folders = folders;
                            if self.folders.len() > 0 {
                                self.waiting = LaunchAction::FindEditor;
                            } else {
                                self.waiting = LaunchAction::OpenPages;
                            }
                        }
                    },
                }
            },
            LaunchEvent::Editor(found) => {
                match found {
                    None => self.finish(0, Err(string_from(ERR_NO_VSCODE))),
                    Some(editor) => {
                        self.editor = editor;
                        self.waiting = LaunchAction::OpenPages;
                    },
                }
            },
            LaunchEvent::Done(done) => {
                match done {
                    Err(e) => {
                        let from = match self.waiting {
                            LaunchAction::RunTerminal(_) => self.next,
                            _ => 0,
                        };
                        self.finish(from, Err(e));
                    },
                    Ok(()) => {
                        let k = match self.waiting {
                            LaunchAction::OpenPages => 0,
                            LaunchAction::StartEditor(k) => k + 1,
                            _ => self.folders.len(),
                        };
                        let terminal_done = matches!(self.waiting, LaunchAction::RunTerminal(_));
                        if terminal_done {
                            if self.mode == LaunchMode::Windows && self.next + 1 < self.prepared.len() {
                                self.next = self.next + 1;
                                self.start_terminal();
                            } else {
                                let all = self.prepared.len();
                                self.finish(all, Ok(()));
                            }
                        } else if k < self.folders.len() {
                            self.waiting = LaunchAction::StartEditor(k);
                        } else {
                            self.next = 0;
                            self.start_terminal();
                        }
                    },
                }
            },
        }
    }
}

/// Nothing opens before every project is prepared: at any point of a launch,
/// an action that opens a page, the editor or Windows Terminal comes once
/// all the projects are prepared, each in the order given.
pub proof fn law_nothing_opens_before_every_project_is_prepared(s: Launch)
    requires
        launch_ok(s),
        opens(s.waiting),
    ensures
        s.prepared.len() == s.ids.len(),
        s.ids.len() > 0,
{
}

/// A launch that stopped takes no further step: once a preparation failed,
/// nothing of the launch opens.
pub proof fn law_a_stopped_launch_goes_no_further(s: Launch, e: LaunchEvent)
    requires
        s.waiting is Finish,
    ensures
        !answers(s.waiting, e),
{
}

} // verus!
