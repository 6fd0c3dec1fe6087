//! The configuration: templates with their layout tree, projects, and the
//! panes of a project once its customizations are applied.
use vstd::prelude::*;
use crate::strmap::StrMap;

verus! {

/// Direction of a split.
#[derive(Clone, Copy, Debug, PartialEq, Eq, Structural)]
pub enum Axis {
    /// Side by side.
    Columns,
    /// One above the other.
    Rows,
}

/// Program running a pane's actions. Absent from the JSON: Bash.
#[derive(Clone, Copy, Debug, PartialEq, Eq, Structural)]
pub enum Shell {
    /// Bash in the project's WSL distribution.
    Bash,
    /// PowerShell on Windows, started in the project folder through `\\wsl.localhost`.
    Powershell,
}

impl Shell {
    /// Bash, the value left out of the JSON.
    pub fn is_bash(&self) -> (b: bool)
        ensures
            b == (*self == Shell::Bash),
    {
        *self == Shell::Bash
    }
}

impl Default for Shell {
    fn default() -> (s: Self)
        ensures
            s == Shell::Bash,
    {
        Shell::Bash
    }
}

/// A template's pane tree.
#[derive(Debug, PartialEq)]
pub enum Layout {
    Pane {
        id: String,
        name: String,
        /// Relative to the project root.
        directory: String,
        /// Actions, run in order.
        commands: Vec<String>,
        shell: Shell,
    },
    Split {
        id: String,
        axis: Axis,
        /// Share of `first`, in millionths (400000 is 40 %).
        ratio: u32,
        first: Box<Layout>,
        second: Box<Layout>,
    },
}

/// A copy of `v`.
pub fn clone_strings(v: &Vec<String>) -> (r: Vec<String>)
    ensures
        r@ == v@,
{
    let mut r: Vec<String> = Vec::new();
    let mut i: usize = 0;
    while i < v.len()
        invariant
            i <= v.len(),
            r@ == v@.take(i as int),
        decreases v.len() - i,
    {
        r.push(v[i].clone());
        assert(v@.take(i + 1) =~= v@.take(i as int).push(v@[i as int]));
        i += 1;
    }
    assert(v@.take(v.len() as int) =~= v@);
    r
}

/// Whether two trees hold the same nodes, field by field.
pub open spec fn same_layout(a: Layout, b: Layout) -> bool
    decreases a,
{
    match (a, b) {
        (
            Layout::Pane { id, name, directory, commands, shell },
            Layout::Pane { id: id2, name: name2, directory: d2, commands: c2, shell: s2 },
        ) => id == id2 && name == name2 && directory == d2 && commands@ == c2@ && shell == s2,
        (
            Layout::Split { id, axis, ratio, first, second },
            Layout::Split { id: id2, axis: a2, ratio: r2, first: f2, second: s2 },
        ) => id == id2 && axis == a2 && ratio == r2 && same_layout(*first, *f2) && same_layout(
            *second,
            *s2,
        ),
        _ => false,
    }
}

impl Clone for Layout {
    fn clone(&self) -> (r: Self)
        ensures
            same_layout(*self, r),
        decreases self,
    {
        match self {
            Layout::Pane { id, name, directory, commands, shell } => Layout::Pane {
                id: id.clone(),
                name: name.clone(),
                directory: directory.clone(),
                commands: clone_strings(commands),
                shell: *shell,
            },
            Layout::Split { id, axis, ratio, first, second } => {
                let f: &Layout = first;
                let s: &Layout = second;
                Layout::Split {
                    id: id.clone(),
                    axis: *axis,
                    ratio: *ratio,
                    first: Box::new(f.clone()),
                    second: Box::new(s.clone()),
                }
            },
        }
    }
}

/// Number of millionths in a whole.
pub const RATIO_ONE: u32 = 1000000;

/// Smallest share a split gives its first pane, in millionths.
pub const RATIO_MIN: u32 = 100000;

/// Largest share a split gives its first pane, in millionths.
pub const RATIO_MAX: u32 = 900000;

/// Identifier of a node.
pub open spec fn node_id(l: Layout) -> Seq<char> {
    match l {
        Layout::Pane { id, .. } => id@,
        Layout::Split { id, .. } => id@,
    }
}

/// Panes of a tree, left to right.
pub open spec fn leaves(l: Layout) -> Seq<Layout>
    decreases l,
{
    match l {
        Layout::Pane { .. } => seq![l],
        Layout::Split { first, second, .. } => leaves(*first) + leaves(*second),
    }
}

/// Number of splits in a tree.
pub open spec fn splits(l: Layout) -> nat
    decreases l,
{
    match l {
        Layout::Pane { .. } => 0,
        Layout::Split { first, second, .. } => splits(*first) + splits(*second) + 1,
    }
}

/// The pane a tree starts with: its top-left one.
pub open spec fn first_leaf(l: Layout) -> Layout
    decreases l,
{
    match l {
        Layout::Pane { .. } => l,
        Layout::Split { first, .. } => first_leaf(*first),
    }
}

pub proof fn lemma_leaves_splits(l: Layout)
    ensures
        leaves(l).len() == splits(l) + 1,
        leaves(l)[0] == first_leaf(l),
        forall|i: int| 0 <= i < leaves(l).len() ==> (#[trigger] leaves(l)[i]) is Pane,
    decreases l,
{
    if let Layout::Split { first, second, .. } = l {
        lemma_leaves_splits(*first);
        lemma_leaves_splits(*second);
        assert forall|i: int| 0 <= i < leaves(l).len() implies (#[trigger] leaves(l)[i]) is Pane by {
            if i < leaves(*first).len() {
                assert(leaves(l)[i] == leaves(*first)[i]);
            } else {
                assert(leaves(l)[i] == leaves(*second)[i - leaves(*first).len()]);
            }
        }
    }
}

impl Layout {
    /// The panes, left to right.
    pub fn panes(&self) -> (res: Vec<&Layout>)
        ensures
            res@.len() == leaves(*self).len(),
            forall|i: int| 0 <= i < res@.len() ==> *res@[i] == leaves(*self)[i],
        decreases self,
    {
        match self {
            Layout::Pane { .. } => {
                let mut v = Vec::new();
                v.push(self);
                v
            },
            Layout::Split { first, second, .. } => {
                let mut p = first.panes();
                let mut q = second.panes();
                p.append(&mut q);
                p
            },
        }
    }

    pub fn id(&self) -> (id: &str)
        ensures
            id@ == node_id(*self),
    {
        match self {
            Layout::Pane { id, .. } => id.as_str(),
            Layout::Split { id, .. } => id.as_str(),
        }
    }

    /// The top-left pane.
    pub fn first_pane(&self) -> (p: &Layout)
        ensures
            *p == first_leaf(*self),
        decreases self,
    {
        match self {
            Layout::Pane { .. } => self,
            Layout::Split { first, .. } => first.first_pane(),
        }
    }
}

#[derive(Clone, Debug, PartialEq)]
pub struct Template {
    pub id: String,
    pub name: String,
    pub layout: Layout,
}

/// A project's customization of one pane.
#[derive(Clone, Debug, Default, PartialEq)]
pub struct Override {
    pub directory: Option<String>,
    pub commands: Option<Vec<String>>,
}

#[derive(Clone, Debug, PartialEq)]
pub struct Project {
    pub id: String,
    pub name: String,
    pub root: String,
    /// SSH destination (`user@host` or a `~/.ssh/config` alias) the panes
    /// connect to with the `ssh` of `distribution`; `root` is then a folder
    /// on that host. Empty: the panes run in WSL.
    pub host: String,
    pub distribution: String,
    /// Windows Terminal profile (name or GUID) giving the panes their look.
    /// Empty: the profile named after the distribution.
    pub terminal_profile: String,
    /// Page opened in the default browser when the project is launched, for a
    /// web application served by one of its panes. Empty: none.
    pub url: String,
    /// Keeps `url` in the configuration without opening it at launch, for when
    /// the browser is not wanted for a while.
    pub url_disabled: bool,
    /// Opens the project in Visual Studio Code at launch, connected to WSL (or
    /// to `host` over SSH) with its Remote extensions.
    pub vscode: bool,
    /// Folder VS Code opens: relative to `root`, or absolute. Empty: `root`.
    pub vscode_folder: String,
    pub template_id: String,
    /// Customizations, by pane id.
    pub overrides: StrMap<Override>,
    /// Started by the "launch all" buttons.
    pub launch_all: bool,
}

#[derive(Clone, Debug, PartialEq)]
pub struct Config {
    pub schema_version: u32,
    /// WSL folder holding the user's projects: prefills new project roots and
    /// lists their subfolders. Empty: not set.
    pub workspace_root: String,
    pub templates: Vec<Template>,
    pub projects: Vec<Project>,
}

/// A pane of a project, its customizations applied.
#[derive(Clone, Debug, PartialEq)]
pub struct ResolvedPane {
    pub id: String,
    pub name: String,
    /// Absolute: the project root joined with the pane's folder.
    pub directory: String,
    pub commands: Vec<String>,
    pub shell: Shell,
}

/// Texts of `v`.
pub open spec fn texts(v: Seq<String>) -> Seq<Seq<char>> {
    v.map_values(|s: String| s@)
}

/// `false`, the value a flag is left out of the JSON with.
pub fn is_false(value: &bool) -> (b: bool)
    ensures
        b == !*value,
{
    !*value
}

} // verus!
