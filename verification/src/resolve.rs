//! A project's panes with its customizations applied, and the pages and
//! folders its launch opens.
use vstd::prelude::*;
use crate::model::{
    leaves, lemma_leaves_splits, node_id, clone_strings, Config, Layout, Project, ResolvedPane,
    Template,
};
use crate::quote::{percent_encode, percent_encoded};
use crate::strmap::lookup;
use crate::text::{
    chars_of, push_str, str_eq, string_from, string_of, texts_of, trim_end_char, trim_end_len,
    trim_end_str,
};
use crate::validate::{config_error, first_error};

verus! {

pub const ERR_PROJECT_NOT_FOUND: &'static str = "Projet introuvable.";
pub const ERR_TEMPLATE_NOT_FOUND: &'static str = "Modèle introuvable.";
pub const VSCODE_SCHEME: &'static str = "vscode-remote://";
pub const VSCODE_WSL: &'static str = "wsl+";
pub const VSCODE_SSH: &'static str = "ssh-remote+";

/// The first project with this id.
pub open spec fn find_project(ps: Seq<Project>, id: Seq<char>) -> Option<Project>
    decreases ps.len(),
{
    if ps.len() == 0 {
        None
    } else if ps[0].id@ == id {
        Some(ps[0])
    } else {
        find_project(ps.drop_first(), id)
    }
}

/// The first template with this id.
pub open spec fn find_template(ts: Seq<Template>, id: Seq<char>) -> Option<Template>
    decreases ts.len(),
{
    if ts.len() == 0 {
        None
    } else if ts[0].id@ == id {
        Some(ts[0])
    } else {
        find_template(ts.drop_first(), id)
    }
}

/// Why `resolve` fails, `None` when it succeeds.
pub open spec fn resolve_error(c: Config, project_id: Seq<char>) -> Option<Seq<char>> {
    first_error(
        config_error(c),
        match find_project(c.projects@, project_id) {
            None => Some(ERR_PROJECT_NOT_FOUND@),
            Some(p) => match find_template(c.templates@, p.template_id@) {
                None => Some(ERR_TEMPLATE_NOT_FOUND@),
                Some(_) => None,
            },
        },
    )
}

/// The pane's folder, relative to the root: customized, or the template's.
pub open spec fn pane_relative(p: Project, pane: Layout) -> Seq<char> {
    let base = match pane {
        Layout::Pane { directory, .. } => directory@,
        Layout::Split { .. } => Seq::empty(),
    };
    match lookup(p.overrides@, node_id(pane)) {
        Some(o) => match o.directory {
            Some(d) => d@,
            None => base,
        },
        None => base,
    }
}

/// The pane's actions: customized, or the template's.
pub open spec fn pane_commands(p: Project, pane: Layout) -> Seq<Seq<char>> {
    let base = match pane {
        Layout::Pane { commands, .. } => texts_of(commands@),
        Layout::Split { .. } => Seq::empty(),
    };
    match lookup(p.overrides@, node_id(pane)) {
        Some(o) => match o.commands {
            Some(c) => texts_of(c@),
            None => base,
        },
        None => base,
    }
}

/// The root joined with a relative folder, `.` standing for an empty one.
pub open spec fn joined(root: Seq<char>, relative: Seq<char>) -> Seq<char> {
    trim_end_char(root, '/') + seq!['/'] + if relative.len() == 0 {
        seq!['.']
    } else {
        relative
    }
}

/// `r` is `pane` of project `p` with the customizations applied.
pub open spec fn resolved_as(r: ResolvedPane, p: Project, pane: Layout) -> bool {
    match pane {
        Layout::Pane { id, name, shell, .. } => {
            &&& r.id@ == id@
            &&& r.name@ == name@
            &&& r.directory@ == joined(p.root@, pane_relative(p, pane))
            &&& texts_of(r.commands@) == pane_commands(p, pane)
            &&& r.shell == shell
        },
        Layout::Split { .. } => false,
    }
}

impl Project {
    /// Page to open in the browser when the project is launched. Empty when
    /// the project has no URL, and when `url_disabled` keeps the value the
    /// user typed without opening it.
    pub fn url_to_open(&self) -> (u: &str)
        ensures
            u@ == if self.url_disabled {
                Seq::<char>::empty()
            } else {
                self.url@
            },
    {
        if self.url_disabled {
            proof {
                reveal_strlit("");
            }
            ""
        } else {
            self.url.as_str()
        }
    }

    /// `--folder-uri` value opening the project in VS Code, e.g.
    /// `vscode-remote://wsl+Ubuntu/home/me/project`, or
    /// `vscode-remote://ssh-remote+dev/srv/app` with a `host`. `distribution`
    /// is the one the panes use, resolved when the project names none. Empty
    /// when the project does not open VS Code.
    pub fn vscode_uri(&self, distribution: &str) -> (uri: String)
        ensures
            uri@ == vscode_text(*self, distribution@),
    {
        if !self.vscode {
            return String::new();
        }
        let vf = chars_of(self.vscode_folder.as_str());
        let folder = if vf.len() == 0 || (vf.len() == 1 && vf[0] == '.') || (vf.len() == 2 && vf[0]
            == '.' && vf[1] == '/') {
            self.root.clone()
        } else if vf[0] == '/' {
            self.vscode_folder.clone()
        } else {
            let mut f = trim_end_str(self.root.as_str(), '/');
            push_str(&mut f, "/");
            proof {
                reveal_strlit("/");
            }
            push_str(&mut f, self.vscode_folder.as_str());
            f
        };
        proof {
            assert(vf@ =~= self.vscode_folder@);
            if vf.len() == 1 {
                assert(vf@ =~= seq!['.'] <==> vf[0] == '.');
            }
            if vf.len() == 2 {
                assert(vf@ =~= seq!['.', '/'] <==> (vf[0] == '.' && vf[1] == '/'));
            }
        }
        assert(folder@ == vscode_folder_text(*self));
        let fv = chars_of(folder.as_str());
        let n = trim_end_len(&fv, '/');
        proof {
            reveal_strlit("/");
            assert(fv@.subrange(0, n as int) =~= fv@.take(n as int));
        }
        let trimmed = if n == 0 {
            string_from("/")
        } else {
            string_of(&fv, 0, n)
        };
        assert(trimmed@ =~= (if trim_end_char(vscode_folder_text(*self), '/').len() == 0 {
            seq!['/']
        } else {
            trim_end_char(vscode_folder_text(*self), '/')
        }));
        let mut uri = string_from(VSCODE_SCHEME);
        proof {
            reveal_strlit("");
        }
        if self.host.as_str().is_empty() {
            push_str(&mut uri, VSCODE_WSL);
            push_str(&mut uri, percent_encode(distribution, "").as_str());
        } else {
            push_str(&mut uri, VSCODE_SSH);
            push_str(&mut uri, percent_encode(self.host.as_str(), "").as_str());
        }
        let ghost with_authority = uri@;
        push_str(&mut uri, percent_encode(trimmed.as_str(), "/").as_str());
        proof {
            reveal_strlit("/");
            assert(""@ =~= Seq::<char>::empty());
            assert("/"@ =~= seq!['/']);
            let authority = if self.host@.len() == 0 {
                VSCODE_WSL@ + percent_encoded(distribution@, Seq::empty())
            } else {
                VSCODE_SSH@ + percent_encoded(self.host@, Seq::empty())
            };
            assert(with_authority =~= VSCODE_SCHEME@ + authority);
            assert(uri@ =~= VSCODE_SCHEME@ + authority + percent_encoded(trimmed@, seq!['/']));
        }
        uri
    }
}

/// The folder VS Code opens, before trailing slashes are dropped.
pub open spec fn vscode_folder_text(p: Project) -> Seq<char> {
    let f = p.vscode_folder@;
    if f.len() == 0 || f =~= seq!['.'] || f =~= seq!['.', '/'] {
        p.root@
    } else if f[0] == '/' {
        f
    } else {
        trim_end_char(p.root@, '/') + seq!['/'] + f
    }
}

/// What `vscode_uri` returns.
pub open spec fn vscode_text(p: Project, distribution: Seq<char>) -> Seq<char> {
    if !p.vscode {
        Seq::empty()
    } else {
        let trimmed = trim_end_char(vscode_folder_text(p), '/');
        let folder = if trimmed.len() == 0 {
            seq!['/']
        } else {
            trimmed
        };
        let authority = if p.host@.len() == 0 {
            VSCODE_WSL@ + percent_encoded(distribution, Seq::empty())
        } else {
            VSCODE_SSH@ + percent_encoded(p.host@, Seq::empty())
        };
        VSCODE_SCHEME@ + authority + percent_encoded(folder, seq!['/'])
    }
}

/// Index of the first project with this id, or their number.
fn project_index(ps: &Vec<Project>, id: &str) -> (i: usize)
    ensures
        i <= ps.len(),
        i < ps.len() ==> find_project(ps@, id@) == Some(ps@[i as int]),
        i == ps.len() ==> find_project(ps@, id@) is None,
{
    let mut i: usize = 0;
    assert(ps@.skip(0) =~= ps@);
    while i < ps.len()
        invariant
            i <= ps.len(),
            find_project(ps@, id@) == find_project(ps@.skip(i as int), id@),
        decreases ps.len() - i,
    {
        if str_eq(ps[i].id.as_str(), id) {
            assert(ps@.skip(i as int)[0] == ps@[i as int]);
            return i;
        }
        assert(ps@.skip(i as int).drop_first() =~= ps@.skip(i + 1));
        i += 1;
    }
    assert(ps@.skip(i as int).len() == 0);
    i
}

/// Index of the first template with this id, or their number.
fn template_index(ts: &Vec<Template>, id: &str) -> (i: usize)
    ensures
        i <= ts.len(),
        i < ts.len() ==> find_template(ts@, id@) == Some(ts@[i as int]),
        i == ts.len() ==> find_template(ts@, id@) is None,
{
    let mut i: usize = 0;
    assert(ts@.skip(0) =~= ts@);
    while i < ts.len()
        invariant
            i <= ts.len(),
            find_template(ts@, id@) == find_template(ts@.skip(i as int), id@),
        decreases ts.len() - i,
    {
        if str_eq(ts[i].id.as_str(), id) {
            assert(ts@.skip(i as int)[0] == ts@[i as int]);
            return i;
        }
        assert(ts@.skip(i as int).drop_first() =~= ts@.skip(i + 1));
        i += 1;
    }
    assert(ts@.skip(i as int).len() == 0);
    i
}

fn resolve_pane(project: &Project, pane: &Layout) -> (r: ResolvedPane)
    requires
        pane is Pane,
    ensures
        resolved_as(r, *project, *pane),
{
    match pane {
        Layout::Pane { id, name, directory, commands, shell } => {
            let custom = project.overrides.get(id.as_str());
            let relative: &str = match custom {
                Some(o) => match &o.directory {
                    Some(d) => d.as_str(),
                    None => directory.as_str(),
                },
                None => directory.as_str(),
            };
            let cmds: Vec<String> = match custom {
                Some(o) => match &o.commands {
                    Some(c) => clone_strings(c),
                    None => clone_strings(commands),
                },
                None => clone_strings(commands),
            };
            assert(relative@ == pane_relative(*project, *pane));
            assert(texts_of(cmds@) == pane_commands(*project, *pane));
            let mut dir = trim_end_str(project.root.as_str(), '/');
            push_str(&mut dir, "/");
            proof {
                reveal_strlit("/");
                reveal_strlit(".");
            }
            if relative.is_empty() {
                push_str(&mut dir, ".");
            } else {
                push_str(&mut dir, relative);
            }
            assert(dir@ =~= joined(project.root@, relative@));
            ResolvedPane {
                id: id.clone(),
                name: name.clone(),
                directory: dir,
                commands: cmds,
                shell: *shell,
            }
        },
        Layout::Split { .. } => {
            proof {
                assert(false);
            }
            ResolvedPane {
                id: String::new(),
                name: String::new(),
                directory: String::new(),
                commands: Vec::new(),
                shell: crate::model::Shell::Bash,
            }
        },
    }
}

impl Config {
    /// The project, its template and its panes, customizations applied,
    /// once the configuration is valid.
    pub fn resolve(&self, project_id: &str) -> (r: Result<
        (&Project, &Template, Vec<ResolvedPane>),
        String,
    >)
        ensures
            match r {
                Err(e) => resolve_error(*self, project_id@) == Some(e@),
                Ok((p, t, panes)) => {
                    &&& resolve_error(*self, project_id@) is None
                    &&& find_project(self.projects@, project_id@) == Some(*p)
                    &&& find_template(self.templates@, p.template_id@) == Some(*t)
                    &&& panes@.len() == leaves(t.layout).len()
                    &&& forall|i: int|
                        0 <= i < panes@.len() ==> resolved_as(
                            #[trigger] panes@[i],
                            *p,
                            leaves(t.layout)[i],
                        )
                },
            },
    {
        if let Err(e) = self.validate() {
            return Err(e);
        }
        let i = project_index(&self.projects, project_id);
        if i == self.projects.len() {
            return Err(string_from(ERR_PROJECT_NOT_FOUND));
        }
        let project = &self.projects[i];
        let j = template_index(&self.templates, project.template_id.as_str());
        if j == self.templates.len() {
            return Err(string_from(ERR_TEMPLATE_NOT_FOUND));
        }
        let template = &self.templates[j];
        let leaves_of = template.layout.panes();
        proof {
            lemma_leaves_splits(template.layout);
        }
        let mut panes: Vec<ResolvedPane> = Vec::new();
        let mut k: usize = 0;
        while k < leaves_of.len()
            invariant
                k <= leaves_of.len(),
                leaves_of@.len() == leaves(template.layout).len(),
                forall|x: int| 0 <= x < leaves_of@.len() ==> *leaves_of@[x] == leaves(template.layout)[x],
                forall|x: int| 0 <= x < leaves(template.layout).len() ==> (#[trigger] leaves(template.layout)[x]) is Pane,
                panes@.len() == k,
                forall|x: int|
                    0 <= x < k ==> resolved_as(#[trigger] panes@[x], *project, leaves(template.layout)[x]),
            decreases leaves_of.len() - k,
        {
            assert(leaves(template.layout)[k as int] is Pane);
            panes.push(resolve_pane(project, leaves_of[k]));
            k += 1;
        }
        Ok((project, template, panes))
    }
}

} // verus!
