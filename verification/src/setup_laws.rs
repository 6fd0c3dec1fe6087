//! What a launch sets up for each pane, stated over its inputs: the folder
//! its script enters before anything runs, the actions it runs, the
//! distribution and profile it gets, what a customization changes, and what
//! a valid configuration guarantees of its projects.
use vstd::prelude::*;
use crate::launch::{distribution_choice, ERR_DISTRIBUTION_MISSING};
use crate::model::{Config, Layout, Project, ResolvedPane};
use crate::quote::{powershell_quoted, shell_quoted};
use crate::resolve::{joined, resolved_as};
use crate::scripts::{
    bash_action, bash_actions, bash_script, powershell_action, powershell_actions,
    powershell_text, BASH_CD, BASH_CD_FAILED, BASH_HEAD, BASH_TAIL, PS_CD_FAILED, PS_HEAD,
    PS_TAIL,
};
use crate::strmap::lookup;
use crate::text::{all_whitespace, concat_map, texts_of};
use crate::validate::{config_error, first_error, project_error, project_ids, projects_error, text_ok};

verus! {

/// The actions a pane runs: each command that is not blank, in order, with
/// its number among all the commands, counted from 1.
pub open spec fn numbered_commands(commands: Seq<Seq<char>>) -> Seq<(nat, Seq<char>)> {
    Seq::new(commands.len(), |i: int| ((i + 1) as nat, commands[i])).filter(
        |e: (nat, Seq<char>)| !all_whitespace(e.1),
    )
}

proof fn lemma_numbered_step(commands: Seq<Seq<char>>)
    requires
        commands.len() > 0,
    ensures
        numbered_commands(commands) == numbered_commands(commands.drop_last()) + if all_whitespace(
            commands.last(),
        ) {
            Seq::<(nat, Seq<char>)>::empty()
        } else {
            seq![(commands.len(), commands.last())]
        },
{
    let f = |i: int| ((i + 1) as nat, commands[i]);
    let g = |i: int| ((i + 1) as nat, commands.drop_last()[i]);
    let all = Seq::new(commands.len(), f);
    assert(all.drop_last() =~= Seq::new(commands.drop_last().len(), g));
    assert(all.last() == (commands.len(), commands.last()));
    let p = |e: (nat, Seq<char>)| !all_whitespace(e.1);
    assert(all.filter(p) == if p(all.last()) {
        all.drop_last().filter(p).push(all.last())
    } else {
        all.drop_last().filter(p)
    }) by {
        reveal(Seq::filter);
    }
    let rest = all.drop_last().filter(p);
    assert(rest.push(all.last()) =~= rest + seq![all.last()]);
    assert(rest + Seq::<(nat, Seq<char>)>::empty() =~= rest);
}

proof fn lemma_concat_map_push<A, B>(s: Seq<A>, x: Seq<A>, f: spec_fn(A) -> Seq<B>)
    requires
        x.len() <= 1,
    ensures
        concat_map(s + x, f) == concat_map(s, f) + concat_map(x, f),
{
    assert(concat_map(Seq::<A>::empty(), f) == Seq::<B>::empty());
    if x.len() == 0 {
        assert(s + x =~= s);
        assert(x =~= Seq::<A>::empty());
        assert(concat_map(s, f) + Seq::<B>::empty() =~= concat_map(s, f));
    } else {
        assert((s + x).drop_last() =~= s);
        assert((s + x).last() == x[0]);
        assert(x.drop_last() =~= Seq::<A>::empty());
        assert(concat_map(x, f) == concat_map(x.drop_last(), f) + f(x.last()));
        assert(Seq::<B>::empty() + f(x.last()) =~= f(x.last()));
    }
}

/// The PowerShell lines of a pane's actions are one block per command that
/// is not blank, the first command included, in the order of the commands,
/// each running that command and numbered by its place among them.
pub proof fn law_powershell_runs_each_action_in_order(commands: Seq<Seq<char>>)
    ensures
        powershell_actions(commands) == concat_map(
            numbered_commands(commands),
            |e: (nat, Seq<char>)| powershell_action(e.0, e.1),
        ),
    decreases commands.len(),
{
    let f = |e: (nat, Seq<char>)| powershell_action(e.0, e.1);
    if commands.len() == 0 {
        assert(numbered_commands(commands) =~= Seq::<(nat, Seq<char>)>::empty()) by {
            reveal(Seq::filter);
        }
    } else {
        law_powershell_runs_each_action_in_order(commands.drop_last());
        lemma_numbered_step(commands);
        let x: Seq<(nat, Seq<char>)> = if all_whitespace(commands.last()) {
            Seq::empty()
        } else {
            seq![(commands.len(), commands.last())]
        };
        lemma_concat_map_push(numbered_commands(commands.drop_last()), x, f);
        if x.len() == 1 {
            assert(x.drop_last() =~= Seq::<(nat, Seq<char>)>::empty());
            assert(concat_map(Seq::<(nat, Seq<char>)>::empty(), f) == Seq::<char>::empty());
            assert(concat_map(x, f) == concat_map(x.drop_last(), f) + f(x.last()));
            assert(concat_map(x, f) =~= f(x.last()));
        }
    }
}

/// The Bash lines of a pane's actions are, likewise, one block per command
/// that is not blank, in order.
pub proof fn law_bash_runs_each_action_in_order(commands: Seq<Seq<char>>)
    ensures
        bash_actions(commands) == concat_map(
            numbered_commands(commands),
            |e: (nat, Seq<char>)| bash_action(e.0, e.1),
        ),
    decreases commands.len(),
{
    let f = |e: (nat, Seq<char>)| bash_action(e.0, e.1);
    if commands.len() == 0 {
        assert(numbered_commands(commands) =~= Seq::<(nat, Seq<char>)>::empty()) by {
            reveal(Seq::filter);
        }
    } else {
        law_bash_runs_each_action_in_order(commands.drop_last());
        lemma_numbered_step(commands);
        let x: Seq<(nat, Seq<char>)> = if all_whitespace(commands.last()) {
            Seq::empty()
        } else {
            seq![(commands.len(), commands.last())]
        };
        lemma_concat_map_push(numbered_commands(commands.drop_last()), x, f);
        if x.len() == 1 {
            assert(x.drop_last() =~= Seq::<(nat, Seq<char>)>::empty());
            assert(concat_map(Seq::<(nat, Seq<char>)>::empty(), f) == Seq::<char>::empty());
            assert(concat_map(x, f) == concat_map(x.drop_last(), f) + f(x.last()));
            assert(concat_map(x, f) =~= f(x.last()));
        }
    }
}

/// Every command that is not blank is among the numbered actions, with its
/// number; every numbered action is a command that is not blank.
pub proof fn law_numbered_commands_are_the_actions(commands: Seq<Seq<char>>)
    ensures
        forall|i: int|
            0 <= i < commands.len() && !all_whitespace(commands[i]) ==> numbered_commands(
                commands,
            ).contains(((i + 1) as nat, #[trigger] commands[i])),
        forall|k: int|
            0 <= k < numbered_commands(commands).len() ==> {
                let e = #[trigger] numbered_commands(commands)[k];
                &&& 1 <= e.0 <= commands.len()
                &&& e.1 == commands[e.0 - 1]
                &&& !all_whitespace(e.1)
            },
{
    let all = Seq::new(commands.len(), |i: int| ((i + 1) as nat, commands[i]));
    let p = |e: (nat, Seq<char>)| !all_whitespace(e.1);
    assert forall|i: int| 0 <= i < commands.len() && !all_whitespace(commands[i]) implies numbered_commands(
        commands,
    ).contains(((i + 1) as nat, #[trigger] commands[i])) by {
        all.lemma_filter_contains(p, i);
    }
    assert forall|k: int| 0 <= k < numbered_commands(commands).len() implies {
        let e = #[trigger] numbered_commands(commands)[k];
        &&& 1 <= e.0 <= commands.len()
        &&& e.1 == commands[e.0 - 1]
        &&& !all_whitespace(e.1)
    } by {
        all.lemma_filter_pred(p, k);
        let e = numbered_commands(commands)[k];
        assert(all.filter(p).contains(e));
        all.lemma_filter_contains_rev(p, e);
        let j = choose|j: int| 0 <= j < all.len() && all[j] == e;
        assert(all[j] == ((j + 1) as nat, commands[j]));
    }
}

/// The numbered actions come in the order of the commands, each once.
pub proof fn law_numbered_commands_keep_their_order(commands: Seq<Seq<char>>)
    ensures
        forall|a: int, b: int|
            0 <= a < b < numbered_commands(commands).len() ==> (#[trigger] numbered_commands(
                commands,
            )[a]).0 < (#[trigger] numbered_commands(commands)[b]).0,
    decreases commands.len(),
{
    if commands.len() > 0 {
        let rest = commands.drop_last();
        law_numbered_commands_keep_their_order(rest);
        law_numbered_commands_are_the_actions(rest);
        lemma_numbered_step(commands);
        let n = numbered_commands(commands);
        let r = numbered_commands(rest);
        assert forall|a: int, b: int| 0 <= a < b < n.len() implies (#[trigger] n[a]).0 < (
        #[trigger] n[b]).0 by {
            assert(n[a] == r[a]);
            if b < r.len() {
                assert(n[b] == r[b]);
            } else {
                assert(n[b].0 == commands.len());
            }
        }
    } else {
        assert(numbered_commands(commands) =~= Seq::<(nat, Seq<char>)>::empty()) by {
            reveal(Seq::filter);
        }
    }
}

/// A pane's Bash rcfile enters the pane's folder before anything else runs:
/// it starts with the `cd` to the quoted folder, which returns at once when
/// the folder cannot be entered, then runs the actions in order.
pub proof fn law_bash_enters_the_folder_first(directory: Seq<char>, commands: Seq<Seq<char>>)
    ensures
        (BASH_HEAD@ + BASH_CD@ + shell_quoted(directory) + BASH_CD_FAILED@).is_prefix_of(
            bash_script(directory, commands),
        ),
        bash_script(directory, commands) == BASH_HEAD@ + BASH_CD@ + shell_quoted(directory)
            + BASH_CD_FAILED@ + concat_map(
            numbered_commands(commands),
            |e: (nat, Seq<char>)| bash_action(e.0, e.1),
        ) + BASH_TAIL@,
{
    law_bash_runs_each_action_in_order(commands);
    let head = BASH_HEAD@ + BASH_CD@ + shell_quoted(directory) + BASH_CD_FAILED@;
    let s = bash_script(directory, commands);
    assert(s =~= head + (bash_actions(commands) + BASH_TAIL@));
    assert(s.subrange(0, head.len() as int) =~= head);
}

/// A pane's PowerShell script enters the pane's folder first, then runs each
/// action that is not blank, in order.
pub proof fn law_powershell_enters_the_folder_first(directory: Seq<char>, commands: Seq<Seq<char>>)
    ensures
        (PS_HEAD@ + powershell_quoted(directory) + PS_CD_FAILED@).is_prefix_of(
            powershell_text(directory, commands),
        ),
        powershell_text(directory, commands) == PS_HEAD@ + powershell_quoted(directory)
            + PS_CD_FAILED@ + concat_map(
            numbered_commands(commands),
            |e: (nat, Seq<char>)| powershell_action(e.0, e.1),
        ) + PS_TAIL@,
{
    law_powershell_runs_each_action_in_order(commands);
    let head = PS_HEAD@ + powershell_quoted(directory) + PS_CD_FAILED@;
    let s = powershell_text(directory, commands);
    assert(s =~= head + (powershell_actions(commands) + PS_TAIL@));
    assert(s.subrange(0, head.len() as int) =~= head);
}

/// A project runs in the distribution it names, which must be installed, or
/// else in the first one installed; its panes use the terminal profile it
/// names, or else the profile named after that distribution.
pub proof fn law_profile_defaults_to_the_distribution(project: Project, available: Seq<Seq<char>>)
    requires
        available.len() > 0,
    ensures
        (distribution_choice(project, available) is Err) <==> (project.distribution@.len() > 0
            && !available.contains(project.distribution@)),
        (match distribution_choice(project, available) {
            Ok((d, p)) => {
                &&& available.contains(d)
                &&& project.distribution@.len() > 0 ==> d == project.distribution@
                &&& project.distribution@.len() == 0 ==> d == available[0]
                &&& project.terminal_profile@.len() == 0 ==> p == d
                &&& project.terminal_profile@.len() > 0 ==> p == project.terminal_profile@
            },
            Err(e) => e == ERR_DISTRIBUTION_MISSING@,
        }),
{
    if project.distribution@.len() == 0 {
        assert(available.contains(available[0]));
    }
}

/// A resolved pane keeps the template pane's id, name and shell; its actions
/// are the customized ones when the project gives some for this pane, and
/// the template's otherwise; its folder, under the project root, is the
/// customized one when given, and the template's otherwise.
pub proof fn law_customizing_changes_only_what_it_gives(r: ResolvedPane, p: Project, pane: Layout)
    requires
        resolved_as(r, p, pane),
    ensures
        (match pane {
            Layout::Pane { id, name, directory, commands, shell } => {
                &&& r.id@ == id@
                &&& r.name@ == name@
                &&& r.shell == shell
                &&& match lookup(p.overrides@, id@) {
                    Some(o) => {
                        &&& match o.commands {
                            Some(c) => texts_of(r.commands@) == texts_of(c@),
                            None => texts_of(r.commands@) == texts_of(commands@),
                        }
                        &&& match o.directory {
                            Some(d) => r.directory@ == joined(p.root@, d@),
                            None => r.directory@ == joined(p.root@, directory@),
                        }
                    },
                    None => {
                        &&& texts_of(r.commands@) == texts_of(commands@)
                        &&& r.directory@ == joined(p.root@, directory@)
                    },
                }
            },
            Layout::Split { .. } => false,
        }),
{
}

proof fn lemma_projects_each(ps: Seq<Project>, templates: Seq<Seq<char>>, i: int)
    requires
        projects_error(ps, templates) is None,
        0 <= i < ps.len(),
    ensures
        text_ok(ps[i].name@),
        text_ok(ps[i].id@),
    decreases ps.len(),
{
    if i == ps.len() - 1 {
        assert(ps.last() == ps[i]);
        assert(project_error(ps.last(), project_ids(ps.drop_last()), templates) is None);
    } else {
        assert(ps.drop_last()[i] == ps[i]);
        lemma_projects_each(ps.drop_last(), templates, i);
    }
}

/// In a valid configuration, every project has a name and an id that are not
/// blank and hold no NUL, line break or `;`.
pub proof fn law_valid_configs_name_each_project(c: Config, i: int)
    requires
        config_error(c) is None,
        0 <= i < c.projects@.len(),
    ensures
        text_ok(c.projects@[i].name@),
        text_ok(c.projects@[i].id@),
{
    assert(projects_error(c.projects@, crate::validate::template_ids(c.templates@)) is None);
    lemma_projects_each(c.projects@, crate::validate::template_ids(c.templates@), i);
}

} // verus!
