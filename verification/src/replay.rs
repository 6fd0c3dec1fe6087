//! Windows Terminal reading a command line back: it cuts the arguments into
//! commands at each `;`, builds a tab's panes from `new-tab`, `split-pane`
//! and `focus-pane`, and shows a tree of titled panes. The law at the end
//! shows that the command line of a layout draws that layout.
use vstd::prelude::*;
use crate::encode::{base64, utf16le};
use crate::model::{first_leaf, leaves, lemma_leaves_splits, node_id, splits, Layout};
use crate::panes_tree::{
    law_tab_commands_rebuild_layout, lemma_run_append, new_tab, rebuilds, replace_leaf, run, step,
    tab_commands, PaneTree, TabState,
};
use crate::separators::{
    commands_free, lemma_base64_plain, lemma_checked_names_free, lemma_commands_free_concat,
    lemma_first_leaf_free, lemma_walk_free, no_char, pane_label,
};
use crate::strmap::lookup;
use crate::terminal::{
    and_then, args_length, axis_flag, command_args, commands_args, distribution_args, focus_args,
    launch_args, lemma_commands_args_append, profile_args, script_path_ok, size_text, tab_text,
    tabs_body, tabs_text, total_panes, walk_commands, window_args, wsl_args, Args, PaneCommand,
    PaneLaunch, TabLaunch, ARG_BASH, ARG_DISTRIBUTION, ARG_ENCODED, ARG_END, ARG_EXEC,
    ARG_FOCUS_PANE, ARG_LOGIN_INTERACTIVE, ARG_NEW_TAB, ARG_NO_EXIT, ARG_NO_LOGO, ARG_PROFILE,
    ARG_SEPARATOR, ARG_SIZE, ARG_SPLIT_PANE, ARG_TARGET, ARG_TITLE, ARG_WSL, ERR_COMMAND_TOO_LONG,
    MAX_COMMAND_LINE, MAX_LAUNCH_PANES, PROFILE_POWERSHELL, PROFILE_PWSH, PROGRAM_POWERSHELL,
    PROGRAM_PWSH, RCFILE_END, RCFILE_START,
};
use crate::scripts::ssh_text;
use crate::text::{decimal, digit};

verus! {

/// The arguments cut at each `;` argument into commands, as Windows Terminal
/// reads its command line: `n` separators make `n + 1` commands.
pub open spec fn cut_commands(args: Args) -> Seq<Args>
    decreases args.len(),
{
    if args.len() == 0 {
        seq![Seq::empty()]
    } else if args[0] == ARG_SEPARATOR@ {
        seq![Seq::<Seq<char>>::empty()] + cut_commands(args.drop_first())
    } else {
        let rest = cut_commands(args.drop_first());
        rest.update(0, seq![args[0]] + rest[0])
    }
}

/// No argument is a `;` alone.
pub open spec fn one_command(args: Args) -> bool {
    forall|i: int| 0 <= i < args.len() ==> #[trigger] args[i] != ARG_SEPARATOR@
}

pub proof fn lemma_cut_len(args: Args)
    ensures
        cut_commands(args).len() >= 1,
    decreases args.len(),
{
    if args.len() > 0 {
        lemma_cut_len(args.drop_first());
    }
}

/// Arguments without a `;` make one command.
pub proof fn lemma_cut_one(args: Args)
    requires
        one_command(args),
    ensures
        cut_commands(args) == seq![args],
    decreases args.len(),
{
    if args.len() > 0 {
        assert(args[0] != ARG_SEPARATOR@);
        assert(one_command(args.drop_first())) by {
            assert forall|i: int| 0 <= i < args.drop_first().len() implies #[trigger] args.drop_first()[i]
                != ARG_SEPARATOR@ by {
                assert(args.drop_first()[i] == args[i + 1]);
            }
        }
        lemma_cut_one(args.drop_first());
        assert(seq![args[0]] + args.drop_first() =~= args);
        assert(seq![args.drop_first()].update(0, seq![args[0]] + args.drop_first()) =~= seq![args]);
    } else {
        assert(args =~= Seq::<Seq<char>>::empty());
    }
}

/// A `;` between two runs of arguments ends the commands of the first.
pub proof fn lemma_cut_join(x: Args, y: Args)
    ensures
        cut_commands(x + seq![ARG_SEPARATOR@] + y) == cut_commands(x) + cut_commands(y),
    decreases x.len(),
{
    let all = x + seq![ARG_SEPARATOR@] + y;
    if x.len() == 0 {
        assert(all =~= seq![ARG_SEPARATOR@] + y);
        assert(all[0] == ARG_SEPARATOR@);
        assert(all.drop_first() =~= y);
        assert(x =~= Seq::<Seq<char>>::empty());
    } else {
        assert(all[0] == x[0]);
        assert(all.drop_first() =~= x.drop_first() + seq![ARG_SEPARATOR@] + y);
        lemma_cut_join(x.drop_first(), y);
        lemma_cut_len(x.drop_first());
        let a = cut_commands(x.drop_first());
        let b = cut_commands(y);
        if x[0] == ARG_SEPARATOR@ {
            assert(seq![Seq::<Seq<char>>::empty()] + (a + b) =~= (seq![Seq::<Seq<char>>::empty()]
                + a) + b);
        } else {
            assert((a + b).update(0, seq![x[0]] + (a + b)[0]) =~= a.update(0, seq![x[0]] + a[0])
                + b);
        }
    }
}

/// The first place of `args` holding an argument `p` picks, or its length.
pub open spec fn first_where(args: Args, p: spec_fn(Seq<char>) -> bool) -> nat
    decreases args.len(),
{
    if args.len() == 0 || p(args[0]) {
        0
    } else {
        1 + first_where(args.drop_first(), p)
    }
}

/// Arguments `p` does not pick are passed over.
pub proof fn lemma_first_where_skip(x: Args, y: Args, p: spec_fn(Seq<char>) -> bool)
    requires
        forall|i: int| 0 <= i < x.len() ==> !p(#[trigger] x[i]),
    ensures
        first_where(x + y, p) == x.len() + first_where(y, p),
    decreases x.len(),
{
    if x.len() == 0 {
        assert(x + y =~= y);
    } else {
        assert((x + y)[0] == x[0]);
        assert(!p(x[0]));
        assert((x + y).drop_first() =~= x.drop_first() + y);
        assert forall|i: int| 0 <= i < x.drop_first().len() implies !p(#[trigger] x.drop_first()[i]) by {
            assert(x.drop_first()[i] == x[i + 1]);
        }
        lemma_first_where_skip(x.drop_first(), y, p);
    }
}

/// Value of decimal digits, the last one counting units.
pub open spec fn digits_value(s: Seq<char>) -> nat
    decreases s.len(),
{
    if s.len() == 0 {
        0
    } else {
        digits_value(s.drop_last()) * 10 + (s.last() as nat - '0' as nat) as nat
    }
}

/// The number a `--target` names: one or more decimal digits.
pub open spec fn read_number(s: Seq<char>) -> Option<nat> {
    if s.len() > 0 && forall|i: int| 0 <= i < s.len() ==> '0' <= #[trigger] s[i] <= '9' {
        Some(digits_value(s))
    } else {
        None
    }
}

/// A number written in decimal reads back as itself.
pub proof fn lemma_read_decimal(n: nat)
    ensures
        read_number(decimal(n)) == Some(n),
{
    crate::separators::lemma_decimal_digits(n);
    lemma_decimal_value(n);
}

proof fn lemma_decimal_value(n: nat)
    ensures
        digits_value(decimal(n)) == n,
        decimal(n).len() > 0,
    decreases n,
{
    if n < 10 {
        let s = decimal(n);
        assert(s.drop_last() =~= Seq::<char>::empty());
        assert(s.last() == digit(n));
        assert(digit(n) as nat == '0' as nat + n);
        assert(digits_value(Seq::<char>::empty()) == 0);
        assert(digits_value(s) == digits_value(s.drop_last()) * 10 + (s.last() as nat - '0' as nat) as nat);
    } else {
        lemma_decimal_value(n / 10);
        let s = decimal(n);
        assert(s.drop_last() == decimal(n / 10));
        assert(s.last() == digit(n % 10));
        assert(digit(n % 10) as nat == '0' as nat + n % 10);
        assert((n / 10) * 10 + n % 10 == n) by (nonlinear_arith);
        assert(digits_value(s) == digits_value(s.drop_last()) * 10 + (s.last() as nat - '0' as nat) as nat);
    }
}

/// A tab's panes as Windows Terminal draws them: leaves are pane numbers,
/// splits keep the direction and size their `split-pane` gave.
pub enum Drawn {
    Pane(nat),
    Split(Seq<char>, Seq<char>, Box<Drawn>, Box<Drawn>),
}

/// What Windows Terminal holds of a tab: its panes, the title of each pane
/// number, and the focused number.
pub struct Screen {
    pub tree: Drawn,
    pub titles: Seq<Seq<char>>,
    pub focused: nat,
}

/// `t` with the pane numbered `target` replaced by `by`.
pub open spec fn redraw(t: Drawn, target: nat, by: Drawn) -> Drawn
    decreases t,
{
    match t {
        Drawn::Pane(n) => if n == target {
            by
        } else {
            t
        },
        Drawn::Split(d, z, x, y) => Drawn::Split(
            d,
            z,
            Box::new(redraw(*x, target, by)),
            Box::new(redraw(*y, target, by)),
        ),
    }
}

pub open spec fn command_word(a: Seq<char>) -> bool {
    a == ARG_NEW_TAB@ || a == ARG_SPLIT_PANE@ || a == ARG_FOCUS_PANE@
}

pub open spec fn title_word(a: Seq<char>) -> bool {
    a == ARG_TITLE@
}

/// Where a command names itself.
pub open spec fn command_at(cmd: Args) -> int {
    first_where(cmd, |a: Seq<char>| command_word(a)) as int
}

/// Where a command gives its `--title`.
pub open spec fn title_at(cmd: Args) -> int {
    first_where(cmd, |a: Seq<char>| title_word(a)) as int
}

/// One command read: `new-tab` starts a tab with one pane, titled after the
/// first `--title`; `split-pane` splits the focused pane, the new pane taking
/// the next number, the focus and its title; `focus-pane --target n` focuses
/// pane `n`. Anything else is refused.
pub open spec fn read_command(cmd: Args, s: Option<Screen>) -> Option<Screen> {
    let i = command_at(cmd);
    let t = title_at(cmd);
    if i >= cmd.len() {
        None
    } else if cmd[i] == ARG_NEW_TAB@ {
        if t + 1 < cmd.len() {
            Some(Screen { tree: Drawn::Pane(0), titles: seq![cmd[t + 1]], focused: 0 })
        } else {
            None
        }
    } else {
        match s {
            None => None,
            Some(s) => if cmd[i] == ARG_SPLIT_PANE@ {
                if i + 3 < cmd.len() && t + 1 < cmd.len() {
                    Some(
                        Screen {
                            tree: redraw(
                                s.tree,
                                s.focused,
                                Drawn::Split(
                                    cmd[i + 1],
                                    cmd[i + 3],
                                    Box::new(Drawn::Pane(s.focused)),
                                    Box::new(Drawn::Pane(s.titles.len())),
                                ),
                            ),
                            titles: s.titles.push(cmd[t + 1]),
                            focused: s.titles.len(),
                        },
                    )
                } else {
                    None
                }
            } else if i + 2 < cmd.len() && cmd[i + 1] == ARG_TARGET@ {
                match read_number(cmd[i + 2]) {
                    Some(k) => if k < s.titles.len() {
                        Some(Screen { focused: k, ..s })
                    } else {
                        None
                    },
                    None => None,
                }
            } else {
                None
            },
        }
    }
}

/// The commands read in order.
pub open spec fn read_commands(cmds: Seq<Args>) -> Option<Screen>
    decreases cmds.len(),
{
    if cmds.len() == 0 {
        None
    } else {
        read_command(cmds.last(), read_commands(cmds.drop_last()))
    }
}

/// What Windows Terminal makes of a command line.
pub open spec fn replay(args: Args) -> Option<Screen> {
    read_commands(cut_commands(args))
}

/// A tab as one sees it: titled panes, and splits with their direction and size.
pub enum Picture {
    Pane(Seq<char>),
    Split(Seq<char>, Seq<char>, Box<Picture>, Box<Picture>),
}

pub open spec fn picture(t: Drawn, titles: Seq<Seq<char>>) -> Picture
    decreases t,
{
    match t {
        Drawn::Pane(n) => Picture::Pane(titles[n as int]),
        Drawn::Split(d, z, x, y) => Picture::Split(
            d,
            z,
            Box::new(picture(*x, titles)),
            Box::new(picture(*y, titles)),
        ),
    }
}

/// A layout as it should look: each pane titled by its name, each split with
/// `-V` for columns or `-H` for rows and its second pane's share.
pub open spec fn layout_picture(l: Layout) -> Picture
    decreases l,
{
    match l {
        Layout::Pane { .. } => Picture::Pane(pane_label(l)),
        Layout::Split { axis, ratio, first, second, .. } => Picture::Split(
            axis_flag(axis),
            size_text(ratio),
            Box::new(layout_picture(*first)),
            Box::new(layout_picture(*second)),
        ),
    }
}

/// The numbered tree of the model, drawn.
pub open spec fn drawn(t: PaneTree) -> Drawn
    decreases t,
{
    match t {
        PaneTree::Leaf(n) => Drawn::Pane(n),
        PaneTree::Split(a, r, x, y) => Drawn::Split(
            axis_flag(a),
            size_text(r),
            Box::new(drawn(*x)),
            Box::new(drawn(*y)),
        ),
    }
}

/// The model's tab as Windows Terminal holds it.
pub open spec fn screen_of(s: TabState) -> Screen {
    Screen {
        tree: drawn(s.tree),
        titles: s.panes.map_values(|p: Layout| pane_label(p)),
        focused: s.focused,
    }
}

proof fn lemma_drawn_replace(t: PaneTree, target: nat, by: PaneTree)
    ensures
        drawn(replace_leaf(t, target, by)) == redraw(drawn(t), target, drawn(by)),
    decreases t,
{
    if let PaneTree::Split(_, _, x, y) = t {
        lemma_drawn_replace(*x, target, by);
        lemma_drawn_replace(*y, target, by);
    }
}

pub proof fn lemma_one_command_concat(a: Args, b: Args)
    requires
        one_command(a),
        one_command(b),
    ensures
        one_command(a + b),
{
    assert forall|i: int| 0 <= i < (a + b).len() implies #[trigger] (a + b)[i] != ARG_SEPARATOR@ by {
        if i < a.len() {
            assert((a + b)[i] == a[i]);
        } else {
            assert((a + b)[i] == b[i - a.len()]);
        }
    }
}

proof fn lemma_not_separator(x: Seq<char>)
    requires
        no_char(x, ';') || x.len() != 1,
    ensures
        x != ARG_SEPARATOR@,
{
    reveal_strlit(";");
    if x == ARG_SEPARATOR@ {
        assert(x[0] == ';');
    }
}

/// What a command reads of arguments: none is a `;` alone, and the first
/// `--title` is followed by `name`.
pub open spec fn reads_title(a: Args, name: Seq<char>) -> bool {
    &&& one_command(a)
    &&& title_at(a) + 1 < a.len()
    &&& a[title_at(a) + 1] == name
}

proof fn lemma_wsl_read(name: Seq<char>, distribution: Seq<char>, profile: Seq<char>, last: Seq<char>)
    requires
        no_char(name, ';'),
        distribution != ARG_SEPARATOR@,
        profile != ARG_SEPARATOR@,
        profile != ARG_TITLE@,
        last.len() > 1,
    ensures
        reads_title(wsl_args(name, distribution, profile).push(last), name),
{
    reveal_strlit(";");
    reveal_strlit("--profile");
    reveal_strlit("--title");
    reveal_strlit("--");
    reveal_strlit("wsl.exe");
    reveal_strlit("--distribution");
    reveal_strlit("--exec");
    reveal_strlit("bash");
    reveal_strlit("-lic");
    let tw = |a: Seq<char>| title_word(a);
    lemma_not_separator(name);
    lemma_not_separator(last);
    let pa = profile_args(profile);
    let mid = seq![ARG_TITLE@, name, ARG_END@, ARG_WSL@];
    let da = distribution_args(distribution);
    let tail = seq![ARG_EXEC@, ARG_BASH@, ARG_LOGIN_INTERACTIVE@, last];
    let a = wsl_args(name, distribution, profile).push(last);
    assert(a =~= pa + (mid + da + tail));
    assert(ARG_PROFILE@.len() == 9 && ARG_TITLE@.len() == 7 && ARG_SEPARATOR@.len() == 1);
    assert(ARG_PROFILE@ != ARG_TITLE@ && ARG_PROFILE@ != ARG_SEPARATOR@);
    assert forall|i: int| 0 <= i < pa.len() implies !tw(#[trigger] pa[i]) && pa[i]
        != ARG_SEPARATOR@ by {
        if i == 0 {
            assert(pa[i] == ARG_PROFILE@);
        } else {
            assert(pa[i] == profile);
        }
    }
    lemma_first_where_skip(pa, mid + da + tail, tw);
    assert(title_at(a) == pa.len());
    assert(one_command(pa));
    assert(ARG_DISTRIBUTION@.len() == 14);
    assert(one_command(da)) by {
        assert forall|i: int| 0 <= i < da.len() implies #[trigger] da[i] != ARG_SEPARATOR@ by {
            if i == 0 {
                assert(da[i] == ARG_DISTRIBUTION@);
            } else {
                assert(da[i] == distribution);
            }
        }
    }
    assert(one_command(mid));
    assert(one_command(tail));
    lemma_one_command_concat(pa, mid);
    lemma_one_command_concat(pa + mid, da);
    lemma_one_command_concat(pa + mid + da, tail);
    assert(a =~= pa + mid + da + tail);
}

proof fn lemma_powershell_read(name: Seq<char>, profile: Seq<char>, program: Seq<char>, b: Seq<char>)
    requires
        no_char(name, ';'),
        no_char(b, ';'),
        profile == PROFILE_PWSH@ || profile == PROFILE_POWERSHELL@,
        program == PROGRAM_PWSH@ || program == PROGRAM_POWERSHELL@,
    ensures
        reads_title(
            seq![
                ARG_PROFILE@,
                profile,
                ARG_TITLE@,
                name,
                ARG_END@,
                program,
                ARG_NO_LOGO@,
                ARG_NO_EXIT@,
                ARG_ENCODED@,
                b,
            ],
            name,
        ),
{
    reveal_strlit(";");
    reveal_strlit("--profile");
    reveal_strlit("--title");
    reveal_strlit("--");
    reveal_strlit("PowerShell");
    reveal_strlit("Windows PowerShell");
    reveal_strlit("pwsh.exe");
    reveal_strlit("powershell.exe");
    reveal_strlit("-NoLogo");
    reveal_strlit("-NoExit");
    reveal_strlit("-EncodedCommand");
    let tw = |a: Seq<char>| title_word(a);
    lemma_not_separator(name);
    lemma_not_separator(b);
    let a = seq![
        ARG_PROFILE@,
        profile,
        ARG_TITLE@,
        name,
        ARG_END@,
        program,
        ARG_NO_LOGO@,
        ARG_NO_EXIT@,
        ARG_ENCODED@,
        b,
    ];
    let head = seq![ARG_PROFILE@, profile];
    assert(a =~= head + a.skip(2));
    assert(ARG_PROFILE@.len() == 9 && ARG_TITLE@.len() == 7);
    assert(ARG_PROFILE@ != ARG_TITLE@);
    assert(profile != ARG_TITLE@);
    assert forall|i: int| 0 <= i < head.len() implies !tw(#[trigger] head[i]) by {
        if i == 0 {
            assert(head[i] == ARG_PROFILE@);
        } else {
            assert(head[i] == profile);
        }
    }
    lemma_first_where_skip(head, a.skip(2), tw);
    assert(title_at(a) == 2);
    assert(ARG_END@.len() == 2 && ARG_NO_LOGO@.len() == 7 && ARG_NO_EXIT@.len() == 7
        && ARG_ENCODED@.len() == 15 && ARG_SEPARATOR@.len() == 1);
    assert(profile.len() > 1 && program.len() > 1);
    assert(one_command(a)) by {
        assert forall|i: int| 0 <= i < a.len() implies #[trigger] a[i] != ARG_SEPARATOR@ by {
            if i == 3 {
                assert(a[i] == name);
            } else if i == 9 {
                assert(a[i] == b);
            } else {
                assert(a[i].len() != 1);
            }
        }
    }
}

/// The arguments starting a pane hold no `;` alone, and give the pane's name
/// after their first `--title`.
proof fn lemma_launch_read(
    pane: Layout,
    distribution: Seq<char>,
    profile: Seq<char>,
    launches: Seq<(Seq<char>, PaneLaunch)>,
)
    requires
        launch_args(pane, distribution, profile, launches) is Ok,
        no_char(pane_label(pane), ';'),
        distribution != ARG_SEPARATOR@,
        profile != ARG_SEPARATOR@,
        profile != ARG_TITLE@,
    ensures
        reads_title(launch_args(pane, distribution, profile, launches)->Ok_0, pane_label(pane)),
{
    reveal(launch_args);
    let name = pane_label(pane);
    match lookup(launches, node_id(pane)) {
        Some(PaneLaunch::Powershell { script, pwsh }) => {
            lemma_base64_plain(utf16le(script@));
            lemma_powershell_read(
                name,
                if pwsh {
                    PROFILE_PWSH@
                } else {
                    PROFILE_POWERSHELL@
                },
                if pwsh {
                    PROGRAM_PWSH@
                } else {
                    PROGRAM_POWERSHELL@
                },
                base64(utf16le(script@)),
            );
        },
        Some(PaneLaunch::Ssh { host, script }) => {
            reveal_strlit("exec ssh -t -- ");
            let c = ssh_text(host@, script@)->Ok_0;
            assert(c.len() > 1);
            lemma_wsl_read(name, distribution, profile, c);
        },
        Some(PaneLaunch::Bash(path)) => {
            reveal_strlit("exec bash --rcfile ");
            let c = RCFILE_START@ + crate::quote::shell_quoted(path@) + RCFILE_END@;
            assert(c.len() > 1);
            lemma_wsl_read(name, distribution, profile, c);
        },
        None => {},
    }
}

/// What reading one command of the model, written out after its `;`, does.
pub open spec fn reads_step(x: Args, c: PaneCommand, s: TabState) -> bool {
    &&& x.len() > 0
    &&& x[0] == ARG_SEPARATOR@
    &&& one_command(x.drop_first())
    &&& read_command(x.drop_first(), Some(screen_of(s))) == Some(screen_of(step(c, s)))
}

proof fn lemma_read_focus(i: nat, s: TabState)
    requires
        i < s.panes.len(),
    ensures
        reads_step(focus_args(i), PaneCommand::FocusPane(i), s),
{
    reveal_strlit(";");
    reveal_strlit("new-tab");
    reveal_strlit("split-pane");
    reveal_strlit("focus-pane");
    reveal_strlit("--target");
    let x = focus_args(i);
    let cw = |a: Seq<char>| command_word(a);
    let body = x.drop_first();
    assert(body =~= seq![ARG_FOCUS_PANE@, ARG_TARGET@, decimal(i)]);
    assert(cw(body[0]));
    assert(command_at(body) == 0);
    assert(ARG_SPLIT_PANE@[0] != ARG_FOCUS_PANE@[0]);
    assert(ARG_NEW_TAB@.len() == 7 && ARG_FOCUS_PANE@.len() == 10);
    lemma_read_decimal(i);
    crate::separators::lemma_decimal_digits(i);
    lemma_not_separator(decimal(i));
    assert(ARG_TARGET@.len() == 8);
    assert(body[0] != ARG_NEW_TAB@ && body[0] != ARG_SPLIT_PANE@);
    let sc = screen_of(s);
    assert(i < sc.titles.len());
    assert(read_command(body, Some(sc)) == Some(Screen { focused: i, ..sc }));
    assert(one_command(body)) by {
        assert forall|k: int| 0 <= k < body.len() implies #[trigger] body[k] != ARG_SEPARATOR@ by {
            if k == 2 {
                assert(body[k] == decimal(i));
            }
        }
    }
}

/// How a `split-pane` command reads: its word first, then the direction and
/// the size, and the title of the pane it starts.
proof fn lemma_split_body(axis: crate::model::Axis, ratio: u32, a: Args, name: Seq<char>)
    requires
        reads_title(a, name),
    ensures
        ({
            let body = seq![ARG_SPLIT_PANE@, axis_flag(axis), ARG_SIZE@, size_text(ratio)] + a;
            &&& one_command(body)
            &&& command_at(body) == 0
            &&& body.len() > 3
            &&& body[0] == ARG_SPLIT_PANE@
            &&& body[0] != ARG_NEW_TAB@
            &&& body[1] == axis_flag(axis)
            &&& body[3] == size_text(ratio)
            &&& title_at(body) + 1 < body.len()
            &&& body[title_at(body) + 1] == name
        }),
{
    reveal_strlit(";");
    reveal_strlit("new-tab");
    reveal_strlit("split-pane");
    reveal_strlit("--title");
    reveal_strlit("-V");
    reveal_strlit("-H");
    reveal_strlit("--size");
    let head = seq![ARG_SPLIT_PANE@, axis_flag(axis), ARG_SIZE@, size_text(ratio)];
    let body = head + a;
    let cw = |w: Seq<char>| command_word(w);
    assert(ARG_NEW_TAB@.len() == 7 && ARG_SPLIT_PANE@.len() == 10);
    assert(body[0] == ARG_SPLIT_PANE@);
    assert(cw(body[0]));
    assert(command_at(body) == 0);
    let tw = |w: Seq<char>| title_word(w);
    assert(axis_flag(axis).len() == 2 && ARG_SIZE@.len() == 6 && size_text(ratio).len() == 8
        && ARG_TITLE@.len() == 7);
    assert forall|k: int| 0 <= k < head.len() implies !tw(#[trigger] head[k]) && head[k]
        != ARG_SEPARATOR@ by {
        assert(head[k].len() != 7 && head[k].len() != 1);
    }
    lemma_first_where_skip(head, a, tw);
    assert(title_at(body) == 4 + title_at(a));
    assert(body[title_at(body) + 1] == a[title_at(a) + 1]);
    assert(one_command(head));
    lemma_one_command_concat(head, a);
}

proof fn lemma_read_split(
    axis: crate::model::Axis,
    ratio: u32,
    pane: Layout,
    s: TabState,
    distribution: Seq<char>,
    profile: Seq<char>,
    launches: Seq<(Seq<char>, PaneLaunch)>,
)
    requires
        launch_args(pane, distribution, profile, launches) is Ok,
        no_char(pane_label(pane), ';'),
        distribution != ARG_SEPARATOR@,
        profile != ARG_SEPARATOR@,
        profile != ARG_TITLE@,
    ensures
        reads_step(
            command_args(
                PaneCommand::SplitPane(axis, ratio, pane),
                distribution,
                profile,
                launches,
            )->Ok_0,
            PaneCommand::SplitPane(axis, ratio, pane),
            s,
        ),
{
    let c = PaneCommand::SplitPane(axis, ratio, pane);
    let x = command_args(c, distribution, profile, launches)->Ok_0;
    let a = launch_args(pane, distribution, profile, launches)->Ok_0;
    lemma_launch_read(pane, distribution, profile, launches);
    lemma_split_body(axis, ratio, a, pane_label(pane));
    let head = seq![ARG_SPLIT_PANE@, axis_flag(axis), ARG_SIZE@, size_text(ratio)];
    let body = head + a;
    assert(x =~= seq![ARG_SEPARATOR@] + body);
    assert(x.drop_first() =~= body);
    let label = |p: Layout| pane_label(p);
    let sc = screen_of(s);
    let f = s.focused;
    let n = s.panes.len();
    let by = PaneTree::Split(axis, ratio, Box::new(PaneTree::Leaf(f)), Box::new(PaneTree::Leaf(n)));
    lemma_drawn_replace(s.tree, f, by);
    assert(s.panes.push(pane).map_values(label) =~= sc.titles.push(pane_label(pane)));
    let next = Screen {
        tree: redraw(
            sc.tree,
            f,
            Drawn::Split(
                axis_flag(axis),
                size_text(ratio),
                Box::new(Drawn::Pane(f)),
                Box::new(Drawn::Pane(n)),
            ),
        ),
        titles: sc.titles.push(pane_label(pane)),
        focused: n,
    };
    assert(read_command(body, Some(sc)) == Some(next));
    assert(drawn(PaneTree::Leaf(f)) == Drawn::Pane(f));
    assert(drawn(PaneTree::Leaf(n)) == Drawn::Pane(n));
    assert(drawn(by) == Drawn::Split(
        axis_flag(axis),
        size_text(ratio),
        Box::new(Drawn::Pane(f)),
        Box::new(Drawn::Pane(n)),
    ));
    let st = step(c, s);
    assert(st.panes == s.panes.push(pane));
    assert(screen_of(st).titles == next.titles);
    assert(screen_of(st).tree == next.tree);
    assert(screen_of(st) == next);
}

proof fn lemma_read_step(
    c: PaneCommand,
    s: TabState,
    distribution: Seq<char>,
    profile: Seq<char>,
    launches: Seq<(Seq<char>, PaneLaunch)>,
)
    requires
        command_args(c, distribution, profile, launches) is Ok,
        c matches PaneCommand::SplitPane(_, _, p) ==> no_char(pane_label(p), ';'),
        c matches PaneCommand::FocusPane(i) ==> i < s.panes.len(),
        distribution != ARG_SEPARATOR@,
        profile != ARG_SEPARATOR@,
        profile != ARG_TITLE@,
    ensures
        reads_step(command_args(c, distribution, profile, launches)->Ok_0, c, s),
{
    match c {
        PaneCommand::FocusPane(i) => lemma_read_focus(i, s),
        PaneCommand::SplitPane(axis, ratio, pane) => {
            lemma_read_split(axis, ratio, pane, s, distribution, profile, launches);
        },
    }
}

/// Each `focus-pane` of the commands, run from `s`, names a pane that exists.
pub open spec fn focus_ok(cs: Seq<PaneCommand>, s: TabState) -> bool {
    forall|k: int|
        0 <= k < cs.len() ==> (#[trigger] cs[k] matches PaneCommand::FocusPane(i) ==> i < run(
            cs.take(k),
            s,
        ).panes.len())
}

proof fn lemma_focus_ok_concat(a: Seq<PaneCommand>, b: Seq<PaneCommand>, s: TabState)
    requires
        focus_ok(a, s),
        focus_ok(b, run(a, s)),
    ensures
        focus_ok(a + b, s),
{
    assert forall|k: int| 0 <= k < (a + b).len() implies (#[trigger] (a + b)[k] matches PaneCommand::FocusPane(
        i,
    ) ==> i < run((a + b).take(k), s).panes.len()) by {
        if k < a.len() {
            assert((a + b)[k] == a[k]);
            assert((a + b).take(k) =~= a.take(k));
        } else {
            let j = k - a.len();
            assert((a + b)[k] == b[j]);
            assert((a + b).take(k) =~= a + b.take(j));
            lemma_run_append(a, b.take(j), s);
        }
    }
}

/// Running commands keeps the panes there and adds one per split.
proof fn lemma_run_panes(cs: Seq<PaneCommand>, s: TabState)
    ensures
        s.panes.is_prefix_of(run(cs, s).panes),
    decreases cs.len(),
{
    if cs.len() > 0 {
        let s1 = step(cs[0], s);
        lemma_run_panes(cs.drop_first(), s1);
        assert(s.panes.is_prefix_of(s1.panes)) by {
            if cs[0] is SplitPane {
                assert(s1.panes.subrange(0, s.panes.len() as int) =~= s.panes);
            } else {
                assert(s1.panes =~= s.panes);
            }
        }
        let e = run(cs, s).panes;
        assert(e.subrange(0, s.panes.len() as int) =~= s1.panes.subrange(0, s.panes.len() as int));
    }
}

/// The splitting commands of a layout focus panes that exist.
proof fn lemma_walk_focus(node: Layout, index: nat, next: nat, s: TabState)
    requires
        s.panes.len() == next,
        index < next,
    ensures
        focus_ok(walk_commands(node, index, next), s),
        run(walk_commands(node, index, next), s).panes.len() == next + splits(node),
    decreases node,
{
    match node {
        Layout::Pane { .. } => {
            assert(walk_commands(node, index, next) =~= Seq::<PaneCommand>::empty());
        },
        Layout::Split { axis, ratio, first, second, .. } => {
            let sf = splits(*first);
            let head = seq![
                PaneCommand::FocusPane(index),
                PaneCommand::SplitPane(axis, ratio, first_leaf(*second)),
            ];
            let w1 = walk_commands(*first, index, next + 1);
            let w2 = walk_commands(*second, next, next + 1 + sf);
            let s2 = run(head, s);
            assert(head.drop_first() =~= seq![PaneCommand::SplitPane(axis, ratio, first_leaf(*second))]);
            assert(head.drop_first().drop_first() =~= Seq::<PaneCommand>::empty());
            assert(s2 == step(head[1], step(head[0], s))) by {
                reveal_with_fuel(run, 3);
            }
            assert(focus_ok(head, s)) by {
                assert(head.take(0) =~= Seq::<PaneCommand>::empty());
            }
            lemma_walk_focus(*first, index, next + 1, s2);
            lemma_focus_ok_concat(head, w1, s);
            lemma_run_append(head, w1, s);
            let s3 = run(head + w1, s);
            lemma_walk_focus(*second, next, next + 1 + sf, s3);
            lemma_focus_ok_concat(head + w1, w2, s);
            lemma_run_append(head + w1, w2, s);
        },
    }
}

/// What `new-tab` with the arguments of a layout's first pane reads.
proof fn lemma_read_head(l: Layout, a: Args)
    requires
        reads_title(a, pane_label(first_leaf(l))),
    ensures
        ({
            let head = window_args() + seq![ARG_NEW_TAB@] + a;
            &&& one_command(head)
            &&& read_command(head, None) == Some(screen_of(new_tab(l)))
        }),
{
    reveal_strlit(";");
    reveal_strlit("-w");
    reveal_strlit("new");
    reveal_strlit("--maximized");
    reveal_strlit("new-tab");
    reveal_strlit("split-pane");
    reveal_strlit("focus-pane");
    reveal_strlit("--title");
    let w = window_args() + seq![ARG_NEW_TAB@];
    let head = w + a;
    let cw = |x: Seq<char>| command_word(x);
    let tw = |x: Seq<char>| title_word(x);
    assert(ARG_NEW_TAB@.len() == 7 && ARG_SPLIT_PANE@.len() == 10 && ARG_FOCUS_PANE@.len() == 10
        && ARG_TITLE@.len() == 7 && ARG_SEPARATOR@.len() == 1);
    assert(ARG_NEW_TAB@[0] != ARG_TITLE@[0]);
    assert forall|k: int| 0 <= k < window_args().len() implies !cw(#[trigger] window_args()[k])
        && window_args()[k] != ARG_SEPARATOR@ by {
        assert(window_args()[k].len() != 7 && window_args()[k].len() != 10
            && window_args()[k].len() != 1);
    }
    assert(head =~= window_args() + (seq![ARG_NEW_TAB@] + a));
    lemma_first_where_skip(window_args(), seq![ARG_NEW_TAB@] + a, cw);
    assert(cw((seq![ARG_NEW_TAB@] + a)[0]));
    assert(command_at(head) == 3);
    assert forall|k: int| 0 <= k < w.len() implies !tw(#[trigger] w[k]) && w[k]
        != ARG_SEPARATOR@ by {
        if k < 3 {
            assert(w[k] == window_args()[k]);
            assert(w[k].len() != 7 && w[k].len() != 1);
        } else {
            assert(w[k] == ARG_NEW_TAB@);
        }
    }
    lemma_first_where_skip(w, a, tw);
    assert(title_at(head) == 4 + title_at(a));
    assert(head[title_at(head) + 1] == a[title_at(a) + 1]);
    assert(one_command(w));
    lemma_one_command_concat(w, a);
    let label = |p: Layout| pane_label(p);
    assert(seq![first_leaf(l)].map_values(label) =~= seq![pane_label(first_leaf(l))]);
    assert(drawn(PaneTree::Leaf(0)) == Drawn::Pane(0));
}

/// A command after a `;` is read after the ones before it.
proof fn lemma_replay_push(before: Args, x: Args)
    requires
        x.len() > 0,
        x[0] == ARG_SEPARATOR@,
        one_command(x.drop_first()),
    ensures
        replay(before + x) == read_command(x.drop_first(), replay(before)),
{
    let body = x.drop_first();
    assert(x =~= seq![ARG_SEPARATOR@] + body);
    assert(before + x =~= before + seq![ARG_SEPARATOR@] + body);
    lemma_cut_join(before, body);
    lemma_cut_one(body);
    let cuts = cut_commands(before);
    assert((cuts + seq![body]).drop_last() =~= cuts);
    assert((cuts + seq![body]).last() == body);
}

proof fn lemma_drop_last_conditions(cs: Seq<PaneCommand>, s0: TabState)
    requires
        cs.len() > 0,
        commands_free(cs),
        focus_ok(cs, s0),
    ensures
        commands_free(cs.drop_last()),
        focus_ok(cs.drop_last(), s0),
        cs.last() matches PaneCommand::SplitPane(_, _, p) ==> no_char(pane_label(p), ';'),
        cs.last() matches PaneCommand::FocusPane(i) ==> i < run(cs.drop_last(), s0).panes.len(),
{
    let rest = cs.drop_last();
    assert forall|i: int| 0 <= i < rest.len() implies (#[trigger] rest[i] matches PaneCommand::SplitPane(
        _,
        _,
        p,
    ) ==> no_char(pane_label(p), ';')) by {
        assert(rest[i] == cs[i]);
    }
    assert forall|k: int| 0 <= k < rest.len() implies (#[trigger] rest[k] matches PaneCommand::FocusPane(
        i,
    ) ==> i < run(rest.take(k), s0).panes.len()) by {
        assert(rest[k] == cs[k]);
        assert(rest.take(k) =~= cs.take(k));
    }
    let last = cs.len() - 1;
    assert(cs[last] == cs.last());
    assert(cs.take(last) =~= rest);
}

/// Reading a tab's first command, then each command of the model written
/// out, ends where running the model ends.
proof fn lemma_read_commands(
    cs: Seq<PaneCommand>,
    head: Args,
    s0: TabState,
    distribution: Seq<char>,
    profile: Seq<char>,
    launches: Seq<(Seq<char>, PaneLaunch)>,
)
    requires
        one_command(head),
        read_command(head, None) == Some(screen_of(s0)),
        commands_args(cs, distribution, profile, launches) is Ok,
        commands_free(cs),
        focus_ok(cs, s0),
        distribution != ARG_SEPARATOR@,
        profile != ARG_SEPARATOR@,
        profile != ARG_TITLE@,
    ensures
        replay(head + commands_args(cs, distribution, profile, launches)->Ok_0) == Some(
            screen_of(run(cs, s0)),
        ),
    decreases cs.len(),
{
    if cs.len() == 0 {
        assert(head + Seq::<Seq<char>>::empty() =~= head);
        lemma_cut_one(head);
        assert(seq![head].drop_last() =~= Seq::<Args>::empty());
        assert(seq![head].last() == head);
    } else {
        let rest = cs.drop_last();
        let c = cs.last();
        lemma_drop_last_conditions(cs, s0);
        let before = commands_args(rest, distribution, profile, launches)->Ok_0;
        let x = command_args(c, distribution, profile, launches)->Ok_0;
        lemma_read_commands(rest, head, s0, distribution, profile, launches);
        let s1 = run(rest, s0);
        lemma_read_step(c, s1, distribution, profile, launches);
        assert(head + commands_args(cs, distribution, profile, launches)->Ok_0 =~= (head + before)
            + x);
        lemma_replay_push(head + before, x);
        assert(cs =~= rest + seq![c]);
        lemma_run_append(rest, seq![c], s0);
        assert(seq![c].drop_first() =~= Seq::<PaneCommand>::empty());
        assert(run(seq![c], s1) == step(c, s1)) by {
            reveal_with_fuel(run, 2);
        }
    }
}

/// A numbered tree rebuilding a layout looks like it.
proof fn lemma_picture(t: PaneTree, panes: Seq<Layout>, l: Layout)
    requires
        rebuilds(t, panes, l),
    ensures
        picture(drawn(t), panes.map_values(|p: Layout| pane_label(p))) == layout_picture(l),
    decreases l,
{
    match (t, l) {
        (PaneTree::Split(_, _, x, y), Layout::Split { first, second, .. }) => {
            lemma_picture(*x, panes, *first);
            lemma_picture(*y, panes, *second);
        },
        _ => {},
    }
}

/// The command line of one tab: the window, then `new-tab` and the tab's arguments.
proof fn lemma_one_tab_line(tab: TabLaunch)
    requires
        tabs_text(seq![tab]) is Ok,
    ensures
        tab_text(*tab.layout, tab.distribution@, tab.profile@, tab.launches@) is Ok,
        tabs_text(seq![tab])->Ok_0 == window_args() + seq![ARG_NEW_TAB@] + tab_text(
            *tab.layout,
            tab.distribution@,
            tab.profile@,
            tab.launches@,
        )->Ok_0,
{
    let tabs = seq![tab];
    assert(tabs.drop_last() =~= Seq::<TabLaunch>::empty());
    assert(tabs.last() == tab);
    assert(tabs_body(Seq::<TabLaunch>::empty()) == Ok::<Args, Seq<char>>(Seq::empty()));
    assert(crate::terminal::tab_start(1) == seq![ARG_NEW_TAB@]);
    let t = tab_text(*tab.layout, tab.distribution@, tab.profile@, tab.launches@);
    assert(tabs_body(tabs) == and_then(
        Ok(Seq::empty()),
        and_then(Ok(seq![ARG_NEW_TAB@]), t),
    ));
    assert(t is Ok);
    assert(tabs_text(tabs)->Ok_0 =~= window_args() + seq![ARG_NEW_TAB@] + t->Ok_0);
}

/// The commands after a layout's splits: the focus back on the first pane.
pub open spec fn tail_commands(l: Layout) -> Seq<PaneCommand> {
    if l is Split {
        seq![PaneCommand::FocusPane(0)]
    } else {
        Seq::empty()
    }
}

proof fn lemma_tail_args(
    l: Layout,
    d: Seq<char>,
    p: Seq<char>,
    launches: Seq<(Seq<char>, PaneLaunch)>,
)
    ensures
        commands_args(tail_commands(l), d, p, launches) == Ok::<Args, Seq<char>>(
            if l is Split {
                focus_args(0)
            } else {
                Seq::empty()
            },
        ),
{
    let tail = tail_commands(l);
    if l is Split {
        assert(tail.drop_last() =~= Seq::<PaneCommand>::empty());
        assert(tail.last() == PaneCommand::FocusPane(0));
        assert(commands_args(Seq::<PaneCommand>::empty(), d, p, launches) == Ok::<
            Args,
            Seq<char>,
        >(Seq::empty()));
        assert(command_args(PaneCommand::FocusPane(0), d, p, launches) == Ok::<Args, Seq<char>>(
            focus_args(0),
        ));
        assert(Seq::<Seq<char>>::empty() + focus_args(0) =~= focus_args(0));
    } else {
        assert(tail =~= Seq::<PaneCommand>::empty());
    }
}

/// A tab's arguments: its first pane's, then each command of the model written out.
proof fn lemma_tab_text_commands(
    l: Layout,
    d: Seq<char>,
    p: Seq<char>,
    launches: Seq<(Seq<char>, PaneLaunch)>,
)
    requires
        tab_text(l, d, p, launches) is Ok,
    ensures
        launch_args(first_leaf(l), d, p, launches) is Ok,
        commands_args(tab_commands(l), d, p, launches) is Ok,
        tab_text(l, d, p, launches)->Ok_0 == launch_args(first_leaf(l), d, p, launches)->Ok_0
            + commands_args(tab_commands(l), d, p, launches)->Ok_0,
        crate::validate::layout_error(l) is None,
{
    let walk = walk_commands(l, 0, 1);
    let tail = tail_commands(l);
    assert(tab_commands(l) == walk + tail);
    lemma_commands_args_append(walk, tail, d, p, launches);
    lemma_tail_args(l, d, p, launches);
    let first = launch_args(first_leaf(l), d, p, launches);
    let w = commands_args(walk, d, p, launches);
    let f = commands_args(tail, d, p, launches);
    assert(tab_text(l, d, p, launches) == if crate::validate::layout_error(l) is Some {
        Err(crate::validate::layout_error(l).unwrap())
    } else {
        and_then(and_then(first, w), f)
    }) by {
        reveal(tab_text);
    }
    assert(tab_text(l, d, p, launches)->Ok_0 =~= first->Ok_0 + (w->Ok_0 + f->Ok_0));
}

/// The command line of one tab: the window, `new-tab` with the arguments
/// of the layout's first pane, then each command of the model written out.
proof fn lemma_one_tab_args(tab: TabLaunch)
    requires
        tabs_text(seq![tab]) is Ok,
    ensures
        launch_args(first_leaf(*tab.layout), tab.distribution@, tab.profile@, tab.launches@) is Ok,
        commands_args(tab_commands(*tab.layout), tab.distribution@, tab.profile@, tab.launches@) is Ok,
        tabs_text(seq![tab])->Ok_0 == window_args() + seq![ARG_NEW_TAB@] + launch_args(
            first_leaf(*tab.layout),
            tab.distribution@,
            tab.profile@,
            tab.launches@,
        )->Ok_0 + commands_args(
            tab_commands(*tab.layout),
            tab.distribution@,
            tab.profile@,
            tab.launches@,
        )->Ok_0,
        crate::validate::layout_error(*tab.layout) is None,
{
    let l = *tab.layout;
    let d = tab.distribution@;
    let p = tab.profile@;
    let launches = tab.launches@;
    lemma_one_tab_line(tab);
    lemma_tab_text_commands(l, d, p, launches);
    let a = launch_args(first_leaf(l), d, p, launches)->Ok_0;
    let cmds = commands_args(tab_commands(l), d, p, launches)->Ok_0;
    assert(tabs_text(seq![tab])->Ok_0 =~= window_args() + seq![ARG_NEW_TAB@] + a + cmds);
}

/// Windows Terminal, reading the command line of a project's tab, draws the
/// project's layout: the same tree, `-V` for columns and `-H` for rows, each
/// split's second pane given its share with six decimals, each pane titled
/// by its name, and the focus back on the first pane. The distribution and
/// the profile are not a `;` alone, and the profile is not `--title`.
pub proof fn law_terminal_args_draw_the_layout(tab: TabLaunch)
    requires
        tabs_text(seq![tab]) is Ok,
        tab.distribution@ != ARG_SEPARATOR@,
        tab.profile@ != ARG_SEPARATOR@,
        tab.profile@ != ARG_TITLE@,
    ensures
        replay(tabs_text(seq![tab])->Ok_0) is Some,
        picture(
            replay(tabs_text(seq![tab])->Ok_0)->Some_0.tree,
            replay(tabs_text(seq![tab])->Ok_0)->Some_0.titles,
        ) == layout_picture(*tab.layout),
        replay(tabs_text(seq![tab])->Ok_0)->Some_0.focused == 0,
        replay(tabs_text(seq![tab])->Ok_0)->Some_0.titles[0] == pane_label(first_leaf(*tab.layout)),
{
    let l = *tab.layout;
    let d = tab.distribution@;
    let p = tab.profile@;
    let launches = tab.launches@;
    lemma_one_tab_args(tab);
    let a = launch_args(first_leaf(l), d, p, launches)->Ok_0;
    let walk = walk_commands(l, 0, 1);
    let tail = tail_commands(l);
    assert(tab_commands(l) == walk + tail);
    // The layout passed its checks: no name holds a `;`.
    lemma_checked_names_free(l, Seq::empty(), 0);
    lemma_first_leaf_free(l);
    lemma_walk_free(l, 0, 1);
    assert(commands_free(tail));
    lemma_commands_free_concat(walk, tail);
    lemma_launch_read(first_leaf(l), d, p, launches);
    lemma_read_head(l, a);
    // Every `focus-pane` names a pane already there.
    let s0 = new_tab(l);
    lemma_walk_focus(l, 0, 1, s0);
    assert(focus_ok(tail, run(walk, s0))) by {
        assert(tail.take(0) =~= Seq::<PaneCommand>::empty());
    }
    lemma_focus_ok_concat(walk, tail, s0);
    lemma_read_commands(tab_commands(l), window_args() + seq![ARG_NEW_TAB@] + a, s0, d, p, launches);
    let end = run(tab_commands(l), s0);
    law_tab_commands_rebuild_layout(l);
    lemma_picture(end.tree, end.panes, l);
    lemma_run_panes(tab_commands(l), s0);
    assert(end.panes[0] == s0.panes[0]);
}

/// Whether a pane's launch starts it: a Bash rcfile the launcher wrote, an
/// SSH host `ssh` accepts, or any PowerShell script.
pub open spec fn launch_ok(pane: Layout, launches: Seq<(Seq<char>, PaneLaunch)>) -> bool {
    match lookup(launches, node_id(pane)) {
        None => false,
        Some(PaneLaunch::Bash(path)) => script_path_ok(path@),
        Some(PaneLaunch::Ssh { host, script }) => ssh_text(host@, script@) is Ok,
        Some(PaneLaunch::Powershell { .. }) => true,
    }
}

/// Every pane of `l` has a launch that starts it.
pub open spec fn launches_ok(l: Layout, launches: Seq<(Seq<char>, PaneLaunch)>) -> bool {
    forall|i: int| 0 <= i < leaves(l).len() ==> launch_ok(#[trigger] leaves(l)[i], launches)
}

proof fn lemma_launch_ok(
    pane: Layout,
    distribution: Seq<char>,
    profile: Seq<char>,
    launches: Seq<(Seq<char>, PaneLaunch)>,
)
    requires
        launch_ok(pane, launches),
    ensures
        launch_args(pane, distribution, profile, launches) is Ok,
{
    reveal(launch_args);
}

/// Each pane a splitting command starts is a pane of the layout.
proof fn lemma_walk_leaves(node: Layout, index: nat, next: nat)
    ensures
        forall|k: int|
            0 <= k < walk_commands(node, index, next).len() ==> (#[trigger] walk_commands(
                node,
                index,
                next,
            )[k] matches PaneCommand::SplitPane(_, _, p) ==> leaves(node).contains(p)),
    decreases node,
{
    if let Layout::Split { axis, ratio, first, second, .. } = node {
        let sf = splits(*first);
        lemma_walk_leaves(*first, index, next + 1);
        lemma_walk_leaves(*second, next, next + 1 + sf);
        lemma_leaves_splits(*second);
        let head = seq![
            PaneCommand::FocusPane(index),
            PaneCommand::SplitPane(axis, ratio, first_leaf(*second)),
        ];
        let w1 = walk_commands(*first, index, next + 1);
        let w2 = walk_commands(*second, next, next + 1 + sf);
        let w = walk_commands(node, index, next);
        let lf = leaves(*first);
        let ls = leaves(*second);
        assert(w == head + w1 + w2);
        assert(leaves(node) == lf + ls);
        assert forall|k: int| 0 <= k < w.len() implies (#[trigger] w[k] matches PaneCommand::SplitPane(
            _,
            _,
            p,
        ) ==> leaves(node).contains(p)) by {
            if k == 1 {
                assert((lf + ls)[lf.len() as int] == ls[0]);
            } else if 2 <= k < 2 + w1.len() {
                assert(w[k] == w1[k - 2]);
                if let PaneCommand::SplitPane(_, _, p) = w[k] {
                    let j = choose|j: int| 0 <= j < lf.len() && lf[j] == p;
                    assert((lf + ls)[j] == p);
                }
            } else if k >= 2 + w1.len() {
                assert(w[k] == w2[k - 2 - w1.len()]);
                if let PaneCommand::SplitPane(_, _, p) = w[k] {
                    let j = choose|j: int| 0 <= j < ls.len() && ls[j] == p;
                    assert((lf + ls)[lf.len() + j] == p);
                }
            }
        }
    }
}

/// Commands whose panes all start give their arguments.
proof fn lemma_commands_ok(
    cs: Seq<PaneCommand>,
    distribution: Seq<char>,
    profile: Seq<char>,
    launches: Seq<(Seq<char>, PaneLaunch)>,
)
    requires
        forall|k: int|
            0 <= k < cs.len() ==> (#[trigger] cs[k] matches PaneCommand::SplitPane(_, _, p)
                ==> launch_ok(p, launches)),
    ensures
        commands_args(cs, distribution, profile, launches) is Ok,
    decreases cs.len(),
{
    if cs.len() > 0 {
        let rest = cs.drop_last();
        assert forall|k: int| 0 <= k < rest.len() implies (#[trigger] rest[k] matches PaneCommand::SplitPane(
            _,
            _,
            p,
        ) ==> launch_ok(p, launches)) by {
            assert(rest[k] == cs[k]);
        }
        lemma_commands_ok(rest, distribution, profile, launches);
        let c = cs.last();
        assert(c == cs[cs.len() - 1]);
        if let PaneCommand::SplitPane(_, _, p) = c {
            lemma_launch_ok(p, distribution, profile, launches);
        }
    }
}

/// A checked layout whose panes all start gives its tab's arguments.
proof fn lemma_tab_text_ok(
    l: Layout,
    distribution: Seq<char>,
    profile: Seq<char>,
    launches: Seq<(Seq<char>, PaneLaunch)>,
)
    requires
        crate::validate::layout_error(l) is None,
        launches_ok(l, launches),
    ensures
        tab_text(l, distribution, profile, launches) is Ok,
{
    reveal(tab_text);
    lemma_leaves_splits(l);
    assert(launch_ok(leaves(l)[0], launches));
    lemma_launch_ok(first_leaf(l), distribution, profile, launches);
    lemma_walk_leaves(l, 0, 1);
    let w = walk_commands(l, 0, 1);
    assert forall|k: int| 0 <= k < w.len() implies (#[trigger] w[k] matches PaneCommand::SplitPane(
        _,
        _,
        p,
    ) ==> launch_ok(p, launches)) by {
        if let PaneCommand::SplitPane(_, _, p) = w[k] {
            let j = choose|j: int| 0 <= j < leaves(l).len() && leaves(l)[j] == p;
            assert(launch_ok(leaves(l)[j], launches));
        }
    }
    lemma_commands_ok(w, distribution, profile, launches);
}

/// The command line opening one tab: the window, `new-tab`, and the tab's arguments.
pub open spec fn one_tab_line(tab: TabLaunch) -> Args {
    window_args() + seq![ARG_NEW_TAB@] + tab_text(
        *tab.layout,
        tab.distribution@,
        tab.profile@,
        tab.launches@,
    )->Ok_0
}

/// A tab whose layout passed its checks, with no more panes than one launch
/// opens and a launch starting each pane, gets its command line: refused
/// only when that line is longer than Windows accepts.
pub proof fn law_checked_tab_gives_its_command_line(tab: TabLaunch)
    requires
        crate::validate::layout_error(*tab.layout) is None,
        leaves(*tab.layout).len() <= MAX_LAUNCH_PANES,
        launches_ok(*tab.layout, tab.launches@),
    ensures
        tab_text(*tab.layout, tab.distribution@, tab.profile@, tab.launches@) is Ok,
        tabs_text(seq![tab]) == if args_length(one_tab_line(tab)) > MAX_COMMAND_LINE {
            Err(ERR_COMMAND_TOO_LONG@)
        } else {
            Ok(one_tab_line(tab))
        },
{
    let tabs = seq![tab];
    lemma_tab_text_ok(*tab.layout, tab.distribution@, tab.profile@, tab.launches@);
    assert(tabs.drop_last() =~= Seq::<TabLaunch>::empty());
    assert(tabs.last() == tab);
    assert(total_panes(Seq::<TabLaunch>::empty()) == 0);
    assert(total_panes(tabs) == leaves(*tab.layout).len());
    assert(tabs_body(Seq::<TabLaunch>::empty()) == Ok::<Args, Seq<char>>(Seq::empty()));
    assert(crate::terminal::tab_start(1) == seq![ARG_NEW_TAB@]);
    let t = tab_text(*tab.layout, tab.distribution@, tab.profile@, tab.launches@);
    assert(tabs_body(tabs) == and_then(
        Ok(Seq::empty()),
        and_then(Ok(seq![ARG_NEW_TAB@]), t),
    ));
    let all = window_args() + tabs_body(tabs)->Ok_0 + Seq::<Seq<char>>::empty();
    assert(all =~= one_tab_line(tab));
}

/// A checked layout of a tab, each pane started by its launch, is drawn by
/// Windows Terminal from its command line whenever that line fits: the same
/// tree, directions and sizes, the panes titled by their names and the focus
/// on the first one. The distribution and the profile are not a `;` alone,
/// and the profile is not `--title`.
pub proof fn law_checked_layout_is_drawn(tab: TabLaunch)
    requires
        crate::validate::layout_error(*tab.layout) is None,
        leaves(*tab.layout).len() <= MAX_LAUNCH_PANES,
        launches_ok(*tab.layout, tab.launches@),
        args_length(one_tab_line(tab)) <= MAX_COMMAND_LINE,
        tab.distribution@ != ARG_SEPARATOR@,
        tab.profile@ != ARG_SEPARATOR@,
        tab.profile@ != ARG_TITLE@,
    ensures
        tabs_text(seq![tab]) is Ok,
        replay(tabs_text(seq![tab])->Ok_0) is Some,
        picture(
            replay(tabs_text(seq![tab])->Ok_0)->Some_0.tree,
            replay(tabs_text(seq![tab])->Ok_0)->Some_0.titles,
        ) == layout_picture(*tab.layout),
        replay(tabs_text(seq![tab])->Ok_0)->Some_0.focused == 0,
        replay(tabs_text(seq![tab])->Ok_0)->Some_0.titles[0] == pane_label(first_leaf(*tab.layout)),
{
    law_checked_tab_gives_its_command_line(tab);
    law_terminal_args_draw_the_layout(tab);
}

} // verus!
