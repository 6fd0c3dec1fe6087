//! The Windows Terminal command line opening a project's layout: one
//! `new-tab`, then a `split-pane` per split, each aimed at its pane by index.
use vstd::prelude::*;
use crate::encode::{base64, encode_powershell, utf16le};
use crate::model::{
    first_leaf, leaves, lemma_leaves_splits, node_id, splits, Axis, Layout, RATIO_MAX, RATIO_MIN,
    RATIO_ONE,
};
use crate::quote::{shell_quote, shell_quoted};
use crate::scripts::{ssh_command, ssh_text};
use crate::strmap::{lookup, StrMap};
use crate::text::{
    chars_of, decimal, decimal_string, is_alphanumeric_byte, is_ascii_alphanumeric_byte, push_str,
    starts_with, starts_with_at, string_from, texts_of,
};
use crate::validate::{check_layout, layout_error, outcome, MAX_DEPTH};

verus! {

/// How Windows Terminal starts one pane.
#[derive(Clone, Debug, PartialEq)]
pub enum PaneLaunch {
    /// Bash in WSL with the rcfile at this `/tmp/runterm-*` path.
    Bash(String),
    /// PowerShell running this script, then staying interactive. `pwsh`
    /// selects PowerShell 7 instead of Windows PowerShell.
    Powershell { script: String, pwsh: bool },
    /// `ssh` in WSL, connecting to `host` and running this pane script.
    Ssh { host: String, script: String },
}

/// One Windows Terminal tab: a project's layout, with the arguments of
/// [`terminal_args`]. `launches` is per tab since projects sharing a template
/// share its pane ids.
#[derive(Clone, Copy, Debug)]
pub struct TabLaunch<'a> {
    pub layout: &'a Layout,
    pub distribution: &'a str,
    pub profile: &'a str,
    pub launches: &'a StrMap<PaneLaunch>,
}

/// Panes started by one launch, all tabs together.
pub const MAX_LAUNCH_PANES: usize = 64;

/// Windows limits a command line to 32,767 characters.
pub const MAX_COMMAND_LINE: usize = 32000;

pub const ERR_NO_PROJECT: &'static str = "Aucun projet à lancer.";
pub const ERR_TOO_MANY_LAUNCH_PANES: &'static str = "Un lancement peut ouvrir au maximum 64 panneaux.";
pub const ERR_COMMAND_TOO_LONG: &'static str = "Commande Windows Terminal trop longue : raccourcissez les actions PowerShell ou SSH.";
pub const ERR_NO_SCRIPT: &'static str = "Script de panneau absent.";
pub const ERR_SCRIPT_PATH: &'static str = "Chemin de script invalide.";

pub const ARG_SEPARATOR: &'static str = ";";
pub const ARG_PROFILE: &'static str = "--profile";
pub const ARG_TITLE: &'static str = "--title";
pub const ARG_END: &'static str = "--";
pub const ARG_WSL: &'static str = "wsl.exe";
pub const ARG_DISTRIBUTION: &'static str = "--distribution";
pub const ARG_EXEC: &'static str = "--exec";
pub const ARG_BASH: &'static str = "bash";
pub const ARG_LOGIN_INTERACTIVE: &'static str = "-lic";
pub const RCFILE_START: &'static str = "exec bash --rcfile ";
pub const RCFILE_END: &'static str = " -i";
pub const PROFILE_PWSH: &'static str = "PowerShell";
pub const PROFILE_POWERSHELL: &'static str = "Windows PowerShell";
pub const PROGRAM_PWSH: &'static str = "pwsh.exe";
pub const PROGRAM_POWERSHELL: &'static str = "powershell.exe";
pub const ARG_NO_LOGO: &'static str = "-NoLogo";
pub const ARG_NO_EXIT: &'static str = "-NoExit";
pub const ARG_ENCODED: &'static str = "-EncodedCommand";
pub const ARG_FOCUS_PANE: &'static str = "focus-pane";
pub const ARG_TARGET: &'static str = "--target";
pub const ARG_SPLIT_PANE: &'static str = "split-pane";
pub const ARG_VERTICAL: &'static str = "-V";
pub const ARG_HORIZONTAL: &'static str = "-H";
pub const ARG_SIZE: &'static str = "--size";
pub const ARG_WINDOW: &'static str = "-w";
pub const ARG_NEW: &'static str = "new";
pub const ARG_MAXIMIZED: &'static str = "--maximized";
pub const ARG_NEW_TAB: &'static str = "new-tab";
pub const ARG_FOCUS_TAB: &'static str = "focus-tab";
pub const ARG_FIRST_TAB: &'static str = "0";
pub const SCRIPT_FOLDER: &'static str = "/tmp/runterm-";

/// Arguments, as texts.
pub type Args = Seq<Seq<char>>;

/// A command Windows Terminal runs while it builds a tab's panes.
pub enum PaneCommand {
    /// `focus-pane --target n`: panes are numbered from 0 in creation order.
    FocusPane(nat),
    /// `split-pane` of the focused pane, the new one (this pane) taking the
    /// second place of the split, with the first keeping `ratio`.
    SplitPane(Axis, u32, Layout),
}

/// Both parts in turn: the arguments of each, or the first error.
pub open spec fn and_then(a: Result<Args, Seq<char>>, b: Result<Args, Seq<char>>) -> Result<
    Args,
    Seq<char>,
> {
    match a {
        Err(e) => Err(e),
        Ok(x) => match b {
            Err(e) => Err(e),
            Ok(y) => Ok(x + y),
        },
    }
}

/// Commands splitting the pane numbered `index`, which holds `node`'s first
/// pane, into `node`; `next` is the number the next new pane gets.
pub open spec fn walk_commands(node: Layout, index: nat, next: nat) -> Seq<PaneCommand>
    decreases node,
{
    match node {
        Layout::Pane { .. } => Seq::empty(),
        Layout::Split { axis, ratio, first, second, .. } => seq![
            PaneCommand::FocusPane(index),
            PaneCommand::SplitPane(axis, ratio, first_leaf(*second)),
        ] + walk_commands(*first, index, next + 1) + walk_commands(
            *second,
            next,
            next + 1 + splits(*first),
        ),
    }
}

/// Six decimals of `m` millionths below one.
pub open spec fn six_digits(m: nat) -> Seq<char> {
    seq![
        crate::text::digit(m / 100000 % 10),
        crate::text::digit(m / 10000 % 10),
        crate::text::digit(m / 1000 % 10),
        crate::text::digit(m / 100 % 10),
        crate::text::digit(m / 10 % 10),
        crate::text::digit(m % 10),
    ]
}

/// `--size` of a split: the share of its second pane, `1 - ratio`, with six decimals.
pub open spec fn size_text(ratio: u32) -> Seq<char> {
    seq!['0', '.'] + six_digits((RATIO_ONE - ratio) as nat)
}

pub open spec fn axis_flag(axis: Axis) -> Seq<char> {
    match axis {
        Axis::Columns => ARG_VERTICAL@,
        Axis::Rows => ARG_HORIZONTAL@,
    }
}

pub open spec fn focus_args(index: nat) -> Args {
    seq![ARG_SEPARATOR@, ARG_FOCUS_PANE@, ARG_TARGET@, decimal(index)]
}

/// A path the launcher wrote: under `/tmp/runterm-`, of plain characters.
pub open spec fn script_path_ok(path: Seq<char>) -> bool {
    &&& starts_with(path, SCRIPT_FOLDER@)
    &&& forall|i: int|
        0 <= i < vstd::utf8::encode_utf8(path).len() ==> {
            let b = #[trigger] vstd::utf8::encode_utf8(path)[i];
            is_ascii_alphanumeric_byte(b) || b == 0x2f || b == 0x2e || b == 0x2d || b == 0x5f
        }
}

pub open spec fn profile_args(profile: Seq<char>) -> Args {
    if profile.len() == 0 {
        Seq::empty()
    } else {
        seq![ARG_PROFILE@, profile]
    }
}

pub open spec fn distribution_args(distribution: Seq<char>) -> Args {
    if distribution.len() == 0 {
        Seq::empty()
    } else {
        seq![ARG_DISTRIBUTION@, distribution]
    }
}

/// `wsl.exe` in the distribution, with the pane's title and profile.
pub open spec fn wsl_args(name: Seq<char>, distribution: Seq<char>, profile: Seq<char>) -> Args {
    profile_args(profile) + seq![ARG_TITLE@, name, ARG_END@, ARG_WSL@] + distribution_args(
        distribution,
    ) + seq![ARG_EXEC@, ARG_BASH@, ARG_LOGIN_INTERACTIVE@]
}

/// Arguments starting `pane` as its launch says.
#[verifier::opaque]
pub open spec fn launch_args(
    pane: Layout,
    distribution: Seq<char>,
    profile: Seq<char>,
    launches: Seq<(Seq<char>, PaneLaunch)>,
) -> Result<Args, Seq<char>> {
    let name = match pane {
        Layout::Pane { name, .. } => name@,
        Layout::Split { id, .. } => id@,
    };
    match lookup(launches, node_id(pane)) {
        None => Err(ERR_NO_SCRIPT@),
        Some(PaneLaunch::Bash(path)) => if !script_path_ok(path@) {
            Err(ERR_SCRIPT_PATH@)
        } else {
            Ok(
                wsl_args(name, distribution, profile).push(
                    RCFILE_START@ + shell_quoted(path@) + RCFILE_END@,
                ),
            )
        },
        Some(PaneLaunch::Ssh { host, script }) => match ssh_text(host@, script@) {
            Err(e) => Err(e),
            Ok(c) => Ok(wsl_args(name, distribution, profile).push(c)),
        },
        Some(PaneLaunch::Powershell { script, pwsh }) => Ok(
            seq![
                ARG_PROFILE@,
                if pwsh {
                    PROFILE_PWSH@
                } else {
                    PROFILE_POWERSHELL@
                },
                ARG_TITLE@,
                name,
                ARG_END@,
                if pwsh {
                    PROGRAM_PWSH@
                } else {
                    PROGRAM_POWERSHELL@
                },
                ARG_NO_LOGO@,
                ARG_NO_EXIT@,
                ARG_ENCODED@,
                base64(utf16le(script@)),
            ],
        ),
    }
}

pub open spec fn command_args(
    c: PaneCommand,
    distribution: Seq<char>,
    profile: Seq<char>,
    launches: Seq<(Seq<char>, PaneLaunch)>,
) -> Result<Args, Seq<char>> {
    match c {
        PaneCommand::FocusPane(i) => Ok(focus_args(i)),
        PaneCommand::SplitPane(axis, ratio, pane) => and_then(
            Ok(seq![ARG_SEPARATOR@, ARG_SPLIT_PANE@, axis_flag(axis), ARG_SIZE@, size_text(ratio)]),
            launch_args(pane, distribution, profile, launches),
        ),
    }
}

pub open spec fn commands_args(
    cs: Seq<PaneCommand>,
    distribution: Seq<char>,
    profile: Seq<char>,
    launches: Seq<(Seq<char>, PaneLaunch)>,
) -> Result<Args, Seq<char>>
    decreases cs.len(),
{
    if cs.len() == 0 {
        Ok(Seq::empty())
    } else {
        and_then(
            commands_args(cs.drop_last(), distribution, profile, launches),
            command_args(cs.last(), distribution, profile, launches),
        )
    }
}

/// Arguments following one `new-tab`, or the first error.
#[verifier::opaque]
pub open spec fn tab_text(
    layout: Layout,
    distribution: Seq<char>,
    profile: Seq<char>,
    launches: Seq<(Seq<char>, PaneLaunch)>,
) -> Result<Args, Seq<char>> {
    if layout_error(layout) is Some {
        Err(layout_error(layout).unwrap())
    } else {
        and_then(
            and_then(
                launch_args(first_leaf(layout), distribution, profile, launches),
                commands_args(walk_commands(layout, 0, 1), distribution, profile, launches),
            ),
            Ok(
                if layout is Split {
                    focus_args(0)
                } else {
                    Seq::empty()
                },
            ),
        )
    }
}

/// Split ratios within bounds and nesting not deeper than allowed, below `depth`.
pub open spec fn tree_ok(l: Layout, depth: nat) -> bool
    decreases l,
{
    depth <= MAX_DEPTH && match l {
        Layout::Pane { .. } => true,
        Layout::Split { ratio, first, second, .. } => RATIO_MIN <= ratio <= RATIO_MAX && tree_ok(
            *first,
            depth + 1,
        ) && tree_ok(*second, depth + 1),
    }
}

pub open spec fn pow2(n: nat) -> nat
    decreases n,
{
    if n == 0 {
        1
    } else {
        2 * pow2((n - 1) as nat)
    }
}

pub(crate) proof fn lemma_check_tree_ok(l: Layout, ids: Seq<Seq<char>>, depth: nat)
    requires
        check_layout(l, ids, depth) is Ok,
    ensures
        tree_ok(l, depth),
    decreases l,
{
    if let Layout::Split { first, second, .. } = l {
        let seen = ids.push(node_id(l));
        lemma_check_tree_ok(*first, seen, depth + 1);
        let after = check_layout(*first, seen, depth + 1)->Ok_0;
        lemma_check_tree_ok(*second, after, depth + 1);
    }
}

proof fn lemma_tree_splits(l: Layout, depth: nat)
    requires
        tree_ok(l, depth),
    ensures
        splits(l) + 1 <= pow2((MAX_DEPTH + 1 - depth) as nat),
    decreases l,
{
    lemma_pow2_mono(0, (MAX_DEPTH + 1 - depth) as nat);
    if let Layout::Split { first, second, .. } = l {
        lemma_tree_splits(*first, depth + 1);
        lemma_tree_splits(*second, depth + 1);
        let k = (20 - depth) as nat;
        assert((MAX_DEPTH + 1 - depth) as nat == k + 1);
        assert((MAX_DEPTH + 1 - (depth + 1)) as nat == k);
        assert(pow2(k + 1) == 2 * pow2(k));
    }
}

proof fn lemma_pow2_bound(n: nat)
    requires
        n <= 21,
    ensures
        pow2(n) <= 2097152,
{
    lemma_pow2_mono(n, 21);
    assert(pow2(21) == 2097152) by {
        reveal_with_fuel(pow2, 22);
    }
}

proof fn lemma_pow2_mono(a: nat, b: nat)
    requires
        a <= b,
    ensures
        pow2(a) <= pow2(b),
    decreases b,
{
    if a < b {
        lemma_pow2_mono(a, (b - 1) as nat);
    }
}

/// Text of `--size`.
fn size_string(ratio: u32) -> (s: String)
    requires
        RATIO_MIN <= ratio <= RATIO_MAX,
    ensures
        s@ == size_text(ratio),
{
    let m: u32 = RATIO_ONE - ratio;
    let mut s = string_from("0.");
    proof {
        reveal_strlit("0.");
    }
    let ghost start = s@;
    let c0 = digit_char(m / 100000 % 10);
    let c1 = digit_char(m / 10000 % 10);
    let c2 = digit_char(m / 1000 % 10);
    let c3 = digit_char(m / 100 % 10);
    let c4 = digit_char(m / 10 % 10);
    let c5 = digit_char(m % 10);
    crate::text::push_char(&mut s, c0);
    crate::text::push_char(&mut s, c1);
    crate::text::push_char(&mut s, c2);
    crate::text::push_char(&mut s, c3);
    crate::text::push_char(&mut s, c4);
    crate::text::push_char(&mut s, c5);
    assert(s@ =~= start + six_digits(m as nat));
    s
}

fn digit_char(d: u32) -> (c: char)
    requires
        d < 10,
    ensures
        c == crate::text::digit(d as nat),
{
    ((0x30 + d) as u8) as char
}

/// Whether a script path is one the launcher wrote.
fn script_path_valid(path: &str) -> (b: bool)
    ensures
        b == script_path_ok(path@),
{
    let v = chars_of(path);
    let prefix = chars_of(SCRIPT_FOLDER);
    assert(v@.skip(0) =~= v@);
    if !starts_with_at(&v, 0, &prefix) {
        return false;
    }
    let bytes = path.as_bytes();
    let mut i: usize = 0;
    while i < bytes.len()
        invariant
            i <= bytes.len(),
            bytes@ == vstd::utf8::encode_utf8(path@),
            forall|j: int|
                0 <= j < i ==> {
                    let b = #[trigger] bytes@[j];
                    is_ascii_alphanumeric_byte(b) || b == 0x2f || b == 0x2e || b == 0x2d || b == 0x5f
                },
        decreases bytes.len() - i,
    {
        let b = bytes[i];
        if !(is_alphanumeric_byte(b) || b == 0x2f || b == 0x2e || b == 0x2d || b == 0x5f) {
            return false;
        }
        i += 1;
    }
    true
}

/// Arguments appended after `a` keep `a` in front.
pub proof fn lemma_prefix_append(a: Args, x: Args)
    ensures
        a.is_prefix_of(a + x),
{
    assert((a + x).subrange(0, a.len() as int) =~= a);
}

pub proof fn lemma_prefix_trans(a: Args, b: Args, c: Args)
    requires
        a.is_prefix_of(b),
        b.is_prefix_of(c),
    ensures
        a.is_prefix_of(c),
{
    assert(c.subrange(0, a.len() as int) =~= b.subrange(0, a.len() as int));
}

/// Appends `--profile` and `--title` through `-lic` for a pane run by `wsl.exe`.
fn push_wsl_args(out: &mut Vec<String>, name: &str, distribution: &str, profile: &str)
    ensures
        texts_of(final(out)@) == texts_of(old(out)@) + wsl_args(name@, distribution@, profile@),
        texts_of(old(out)@).is_prefix_of(texts_of(final(out)@)),
{
    let ghost before = texts_of(out@);
    if !profile.is_empty() {
        out.push(string_from(ARG_PROFILE));
        out.push(string_from(profile));
    }
    out.push(string_from(ARG_TITLE));
    out.push(string_from(name));
    out.push(string_from(ARG_END));
    out.push(string_from(ARG_WSL));
    if !distribution.is_empty() {
        out.push(string_from(ARG_DISTRIBUTION));
        out.push(string_from(distribution));
    }
    out.push(string_from(ARG_EXEC));
    out.push(string_from(ARG_BASH));
    out.push(string_from(ARG_LOGIN_INTERACTIVE));
    assert(texts_of(out@) =~= before + wsl_args(name@, distribution@, profile@));
    proof {
        lemma_prefix_append(before, wsl_args(name@, distribution@, profile@));
    }
}

/// Appends the arguments starting `pane`.
fn launch(
    pane: &Layout,
    distribution: &str,
    profile: &str,
    launches: &StrMap<PaneLaunch>,
    out: &mut Vec<String>,
) -> (r: Result<(), String>)
    requires
        pane is Pane,
    ensures
        match launch_args(*pane, distribution@, profile@, launches@) {
            Ok(a) => r is Ok && texts_of(final(out)@) == texts_of(old(out)@) + a,
            Err(e) => outcome(r) == Some(e),
        },
        texts_of(old(out)@).is_prefix_of(texts_of(final(out)@)),
{
    reveal(launch_args);
    let (id, name) = match pane {
        Layout::Pane { id, name, .. } => (id.as_str(), name.as_str()),
        Layout::Split { id, .. } => (id.as_str(), id.as_str()),
    };
    let ghost before = texts_of(out@);
    proof {
        lemma_prefix_append(before, Seq::empty());
        assert(before + Seq::<Seq<char>>::empty() =~= before);
    }
    match launches.get(id) {
        None => Err(string_from(ERR_NO_SCRIPT)),
        Some(PaneLaunch::Bash(path)) => {
            // Paths are generated by the adapter, never taken from project input.
            if !script_path_valid(path.as_str()) {
                return Err(string_from(ERR_SCRIPT_PATH));
            }
            push_wsl_args(out, name, distribution, profile);
            let ghost mid = out@;
            let mut command = string_from(RCFILE_START);
            push_str(&mut command, shell_quote(path.as_str()).as_str());
            push_str(&mut command, RCFILE_END);
            out.push(command);
            assert(texts_of(out@) =~= texts_of(mid).push(command@));
            assert(texts_of(out@) =~= before + wsl_args(name@, distribution@, profile@).push(
                RCFILE_START@ + shell_quoted(path@) + RCFILE_END@,
            ));
            proof {
                lemma_prefix_append(before, wsl_args(name@, distribution@, profile@).push(
                    RCFILE_START@ + shell_quoted(path@) + RCFILE_END@,
                ));
            }
            Ok(())
        },
        Some(PaneLaunch::Ssh { host, script }) => {
            push_wsl_args(out, name, distribution, profile);
            let ghost mid = out@;
            match ssh_command(host.as_str(), script.as_str()) {
                Ok(c) => {
                    out.push(c);
                    assert(texts_of(out@) =~= texts_of(mid).push(c@));
                    proof {
                        lemma_prefix_append(texts_of(mid), seq![c@]);
                        assert(texts_of(mid).push(c@) =~= texts_of(mid) + seq![c@]);
                        lemma_prefix_trans(before, texts_of(mid), texts_of(out@));
                    }
                    Ok(())
                },
                Err(e) => Err(e),
            }
        },
        Some(PaneLaunch::Powershell { script, pwsh }) => {
            let (profile, program) = if *pwsh {
                (PROFILE_PWSH, PROGRAM_PWSH)
            } else {
                (PROFILE_POWERSHELL, PROGRAM_POWERSHELL)
            };
            out.push(string_from(ARG_PROFILE));
            out.push(string_from(profile));
            out.push(string_from(ARG_TITLE));
            out.push(string_from(name));
            out.push(string_from(ARG_END));
            out.push(string_from(program));
            out.push(string_from(ARG_NO_LOGO));
            out.push(string_from(ARG_NO_EXIT));
            out.push(string_from(ARG_ENCODED));
            out.push(encode_powershell(script.as_str()));
            assert(texts_of(out@) =~= before + launch_args(
                *pane,
                distribution@,
                profile@,
                launches@,
            )->Ok_0);
            proof {
                lemma_prefix_append(before, launch_args(*pane, distribution@, profile@, launches@)->Ok_0);
            }
            Ok(())
        },
    }
}

/// `split-pane` targets the pane it splits by index: Windows Terminal numbers
/// the panes of a tab from 0 in creation order, which is the order `walk`
/// creates them in, while focus can move on its own as panes start.
fn focus(index: usize, out: &mut Vec<String>)
    ensures
        texts_of(final(out)@) == texts_of(old(out)@) + focus_args(index as nat),
        texts_of(old(out)@).is_prefix_of(texts_of(final(out)@)),
{
    let ghost before = texts_of(out@);
    out.push(string_from(ARG_SEPARATOR));
    out.push(string_from(ARG_FOCUS_PANE));
    out.push(string_from(ARG_TARGET));
    out.push(decimal_string(index));
    assert(texts_of(out@) =~= before + focus_args(index as nat));
    proof {
        lemma_prefix_append(before, focus_args(index as nat));
    }
}

pub(crate) proof fn lemma_commands_args_append(
    a: Seq<PaneCommand>,
    b: Seq<PaneCommand>,
    distribution: Seq<char>,
    profile: Seq<char>,
    launches: Seq<(Seq<char>, PaneLaunch)>,
)
    ensures
        commands_args(a + b, distribution, profile, launches) == and_then(
            commands_args(a, distribution, profile, launches),
            commands_args(b, distribution, profile, launches),
        ),
    decreases b.len(),
{
    if b.len() == 0 {
        assert(a + b =~= a);
        match commands_args(a, distribution, profile, launches) {
            Ok(x) => assert(x + Seq::<Seq<char>>::empty() =~= x),
            Err(_) => {},
        }
    } else {
        assert((a + b).drop_last() =~= a + b.drop_last());
        assert((a + b).last() == b.last());
        lemma_commands_args_append(a, b.drop_last(), distribution, profile, launches);
        match commands_args(a, distribution, profile, launches) {
            Ok(x) => match commands_args(b.drop_last(), distribution, profile, launches) {
                Ok(y) => match command_args(b.last(), distribution, profile, launches) {
                    Ok(z) => assert(x + y + z =~= x + (y + z)),
                    Err(_) => {},
                },
                Err(_) => {},
            },
            Err(_) => {},
        }
    }
}

proof fn lemma_commands_args_two(
    c0: PaneCommand,
    c1: PaneCommand,
    distribution: Seq<char>,
    profile: Seq<char>,
    launches: Seq<(Seq<char>, PaneLaunch)>,
)
    ensures
        commands_args(seq![c0, c1], distribution, profile, launches) == and_then(
            command_args(c0, distribution, profile, launches),
            command_args(c1, distribution, profile, launches),
        ),
{
    let s = seq![c0, c1];
    assert(s.drop_last() =~= seq![c0]);
    assert(s.last() == c1);
    assert(seq![c0].drop_last() =~= Seq::<PaneCommand>::empty());
    assert(seq![c0].last() == c0);
    assert(commands_args(Seq::<PaneCommand>::empty(), distribution, profile, launches) == Ok::<Args, Seq<char>>(Seq::empty()));
    let one = command_args(c0, distribution, profile, launches);
    assert(commands_args(seq![c0], distribution, profile, launches) == and_then(Ok(Seq::empty()), one));
    if one is Ok {
        assert(Seq::<Seq<char>>::empty() + one->Ok_0 =~= one->Ok_0);
    }
    assert(commands_args(seq![c0], distribution, profile, launches) == one);
}

/// Appends the focus on pane `index` and the split giving `pane` its place.
fn split_here(
    index: usize,
    axis: Axis,
    ratio: u32,
    pane: &Layout,
    distribution: &str,
    profile: &str,
    launches: &StrMap<PaneLaunch>,
    out: &mut Vec<String>,
) -> (r: Result<(), String>)
    requires
        RATIO_MIN <= ratio <= RATIO_MAX,
        pane is Pane,
    ensures
        match commands_args(
            seq![PaneCommand::FocusPane(index as nat), PaneCommand::SplitPane(axis, ratio, *pane)],
            distribution@,
            profile@,
            launches@,
        ) {
            Ok(a) => r is Ok && texts_of(final(out)@) == texts_of(old(out)@) + a,
            Err(e) => outcome(r) == Some(e),
        },
        texts_of(old(out)@).is_prefix_of(texts_of(final(out)@)),
{
    let ghost c0 = PaneCommand::FocusPane(index as nat);
    let ghost c1 = PaneCommand::SplitPane(axis, ratio, *pane);
    proof {
        lemma_commands_args_two(c0, c1, distribution@, profile@, launches@);
    }
    let ghost start = texts_of(out@);
    focus(index, out);
    let ghost after_focus = texts_of(out@);
    out.push(string_from(ARG_SEPARATOR));
    out.push(string_from(ARG_SPLIT_PANE));
    match axis {
        Axis::Columns => out.push(string_from(ARG_VERTICAL)),
        Axis::Rows => out.push(string_from(ARG_HORIZONTAL)),
    }
    out.push(string_from(ARG_SIZE));
    out.push(size_string(ratio));
    let ghost split = seq![ARG_SEPARATOR@, ARG_SPLIT_PANE@, axis_flag(axis), ARG_SIZE@, size_text(ratio)];
    assert(texts_of(out@) =~= after_focus + split);
    let ghost mid = texts_of(out@);
    proof {
        lemma_prefix_append(after_focus, split);
        lemma_prefix_trans(start, after_focus, mid);
    }
    let r = launch(pane, distribution, profile, launches, out);
    proof {
        lemma_prefix_trans(start, mid, texts_of(out@));
        match launch_args(*pane, distribution@, profile@, launches@) {
            Ok(l) => {
                assert(texts_of(out@) =~= start + (focus_args(index as nat) + (split + l)));
            },
            Err(_) => {},
        }
    }
    r
}

proof fn lemma_walk_split(
    node: Layout,
    index: nat,
    next: nat,
    distribution: Seq<char>,
    profile: Seq<char>,
    launches: Seq<(Seq<char>, PaneLaunch)>,
)
    requires
        node is Split,
    ensures
        ({
            let (axis, ratio, first, second) = match node {
                Layout::Split { axis, ratio, first, second, .. } => (axis, ratio, *first, *second),
                Layout::Pane { .. } => (Axis::Rows, 0u32, node, node),
            };
            commands_args(walk_commands(node, index, next), distribution, profile, launches)
                == and_then(
                and_then(
                    commands_args(
                        seq![
                            PaneCommand::FocusPane(index),
                            PaneCommand::SplitPane(axis, ratio, first_leaf(second)),
                        ],
                        distribution,
                        profile,
                        launches,
                    ),
                    commands_args(walk_commands(first, index, next + 1), distribution, profile, launches),
                ),
                commands_args(
                    walk_commands(second, next, next + 1 + splits(first)),
                    distribution,
                    profile,
                    launches,
                ),
            )
        }),
{
    if let Layout::Split { axis, ratio, first, second, .. } = node {
        let head = seq![
            PaneCommand::FocusPane(index),
            PaneCommand::SplitPane(axis, ratio, first_leaf(*second)),
        ];
        let rest1 = walk_commands(*first, index, next + 1);
        let rest2 = walk_commands(*second, next, next + 1 + splits(*first));
        lemma_commands_args_append(head + rest1, rest2, distribution, profile, launches);
        lemma_commands_args_append(head, rest1, distribution, profile, launches);
    }
}

/// Appends the commands splitting the pane numbered `index` into `node`.
fn walk(
    node: &Layout,
    index: usize,
    next: &mut usize,
    depth: Ghost<nat>,
    distribution: &str,
    profile: &str,
    launches: &StrMap<PaneLaunch>,
    out: &mut Vec<String>,
) -> (r: Result<(), String>)
    requires
        tree_ok(*node, depth@),
        index < *old(next),
        *old(next) + splits(*node) <= 4194304,
    ensures
        match commands_args(
            walk_commands(*node, index as nat, *old(next) as nat),
            distribution@,
            profile@,
            launches@,
        ) {
            Ok(a) => r is Ok && texts_of(final(out)@) == texts_of(old(out)@) + a && *final(next)
                == *old(next) + splits(*node),
            Err(e) => outcome(r) == Some(e),
        },
        texts_of(old(out)@).is_prefix_of(texts_of(final(out)@)),
    decreases node,
{
    match node {
        Layout::Pane { .. } => {
            assert(texts_of(out@) =~= texts_of(out@) + Seq::<Seq<char>>::empty());
            proof {
                lemma_prefix_append(texts_of(out@), Seq::empty());
            }
            Ok(())
        },
        Layout::Split { axis, ratio, first, second, .. } => {
            let f: &Layout = first;
            let s: &Layout = second;
            let ghost start = texts_of(out@);
            let ghost n0 = *next;
            proof {
                lemma_walk_split(*node, index as nat, n0 as nat, distribution@, profile@, launches@);
                lemma_leaves_splits(*s);
            }
            let p = s.first_pane();
            if let Err(e) = split_here(index, *axis, *ratio, p, distribution, profile, launches, out) {
                return Err(e);
            }
            let ghost a1 = texts_of(out@);
            let second_index = *next;
            *next = *next + 1;
            if let Err(e) = walk(f, index, next, Ghost((depth@ + 1) as nat), distribution, profile, launches, out) {
                proof {
                    lemma_prefix_trans(start, a1, texts_of(out@));
                }
                return Err(e);
            }
            let ghost a2 = texts_of(out@);
            proof {
                lemma_prefix_trans(start, a1, a2);
            }
            let r = walk(s, second_index, next, Ghost((depth@ + 1) as nat), distribution, profile, launches, out);
            proof {
                lemma_prefix_trans(start, a2, texts_of(out@));
                if r is Ok {
                    let x = a1.subrange(start.len() as int, a1.len() as int);
                    let y = a2.subrange(a1.len() as int, a2.len() as int);
                    let z = texts_of(out@).subrange(a2.len() as int, texts_of(out@).len() as int);
                    assert(a1 =~= start + x);
                    assert(a2 =~= a1 + y);
                    assert(texts_of(out@) =~= a2 + z);
                    assert(texts_of(out@) =~= start + (x + y + z));
                }
            }
            r
        },
    }
}

/// Arguments following one `new-tab`.
fn tab_args(tab: &TabLaunch, out: &mut Vec<String>) -> (r: Result<(), String>)
    ensures
        match tab_text(*tab.layout, tab.distribution@, tab.profile@, tab.launches@) {
            Ok(a) => r is Ok && texts_of(final(out)@) == texts_of(old(out)@) + a,
            Err(e) => outcome(r) == Some(e),
        },
        // The arguments already there stay in front, also on an error.
        texts_of(old(out)@).is_prefix_of(texts_of(final(out)@)),
{
    reveal(tab_text);
    let layout = tab.layout;
    let mut ids: Vec<String> = Vec::new();
    assert(texts_of(ids@) =~= Seq::<Seq<char>>::empty());
    if let Err(e) = layout.validate(&mut ids, 0) {
        proof {
            lemma_prefix_append(texts_of(out@), Seq::empty());
            assert(texts_of(out@) + Seq::<Seq<char>>::empty() =~= texts_of(out@));
        }
        return Err(e);
    }
    proof {
        lemma_check_tree_ok(*layout, Seq::empty(), 0);
        lemma_tree_splits(*layout, 0);
        lemma_pow2_bound(21);
        lemma_leaves_splits(*layout);
    }
    let ghost start = texts_of(out@);
    if let Err(e) = launch(layout.first_pane(), tab.distribution, tab.profile, tab.launches, out) {
        return Err(e);
    }
    let ghost after_first = texts_of(out@);
    let mut next: usize = 1;
    if let Err(e) = walk(layout, 0, &mut next, Ghost(0), tab.distribution, tab.profile, tab.launches, out) {
        proof {
            lemma_prefix_trans(start, after_first, texts_of(out@));
        }
        return Err(e);
    }
    let ghost before_focus = texts_of(out@);
    proof {
        lemma_prefix_trans(start, after_first, before_focus);
    }
    if let Layout::Split { .. } = layout {
        focus(0, out);
    } else {
        assert(texts_of(out@) =~= before_focus + Seq::<Seq<char>>::empty());
    }
    proof {
        let a = launch_args(first_leaf(*layout), tab.distribution@, tab.profile@, tab.launches@)->Ok_0;
        let b = commands_args(walk_commands(*layout, 0, 1), tab.distribution@, tab.profile@, tab.launches@)->Ok_0;
        assert(texts_of(out@) =~= start + (a + b + if *layout is Split {
            focus_args(0)
        } else {
            Seq::empty()
        }));
        lemma_prefix_append(start, a + b + if *layout is Split {
            focus_args(0)
        } else {
            Seq::empty()
        });
    }
    Ok(())
}


/// Panes of every tab.
pub open spec fn total_panes(tabs: Seq<TabLaunch>) -> nat
    decreases tabs.len(),
{
    if tabs.len() == 0 {
        0
    } else {
        total_panes(tabs.drop_last()) + leaves(*tabs.last().layout).len()
    }
}

/// Arguments of one tab after the first: a `new-tab` command, separated.
pub open spec fn tab_start(count: nat) -> Args {
    if count > 1 {
        seq![ARG_SEPARATOR@, ARG_NEW_TAB@]
    } else {
        seq![ARG_NEW_TAB@]
    }
}

/// Each tab's `new-tab` command in turn.
pub open spec fn tabs_body(tabs: Seq<TabLaunch>) -> Result<Args, Seq<char>>
    decreases tabs.len(),
{
    if tabs.len() == 0 {
        Ok(Seq::empty())
    } else {
        let t = tabs.last();
        and_then(
            tabs_body(tabs.drop_last()),
            and_then(
                Ok(tab_start(tabs.len())),
                tab_text(*t.layout, t.distribution@, t.profile@, t.launches@),
            ),
        )
    }
}

/// Length of the command line Windows receives: each argument's bytes, a
/// separating space and, at most, two quotes.
pub open spec fn args_length(args: Args) -> nat
    decreases args.len(),
{
    if args.len() == 0 {
        0
    } else {
        args_length(args.drop_last()) + vstd::utf8::encode_utf8(args.last()).len() + 3
    }
}

pub open spec fn window_args() -> Args {
    seq![ARG_WINDOW@, ARG_NEW@, ARG_MAXIMIZED@]
}

pub open spec fn focus_tab_args() -> Args {
    seq![ARG_SEPARATOR@, ARG_FOCUS_TAB@, ARG_TARGET@, ARG_FIRST_TAB@]
}

/// The command line of one new window with a tab per entry, the first one
/// focused, or the first error.
pub open spec fn tabs_text(tabs: Seq<TabLaunch>) -> Result<Args, Seq<char>> {
    if tabs.len() == 0 {
        Err(ERR_NO_PROJECT@)
    } else if total_panes(tabs) > MAX_LAUNCH_PANES {
        Err(ERR_TOO_MANY_LAUNCH_PANES@)
    } else {
        match tabs_body(tabs) {
            Err(e) => Err(e),
            Ok(body) => {
                let all = window_args() + body + if tabs.len() > 1 {
                    focus_tab_args()
                } else {
                    Seq::empty()
                };
                if args_length(all) > MAX_COMMAND_LINE {
                    Err(ERR_COMMAND_TOO_LONG@)
                } else {
                    Ok(all)
                }
            },
        }
    }
}

/// The outcome of a command line, as texts.
pub open spec fn args_outcome(r: Result<Vec<String>, String>) -> Result<Args, Seq<char>> {
    match r {
        Ok(v) => Ok(texts_of(v@)),
        Err(e) => Err(e@),
    }
}

/// Whether the tabs hold more panes than one launch opens.
fn too_many_panes(tabs: &[TabLaunch]) -> (b: bool)
    ensures
        b == (total_panes(tabs@) > MAX_LAUNCH_PANES),
{
    let mut total: usize = 0;
    let mut over = false;
    let mut i: usize = 0;
    while i < tabs.len()
        invariant
            i <= tabs.len(),
            over == (total_panes(tabs@.take(i as int)) > MAX_LAUNCH_PANES),
            !over ==> total == total_panes(tabs@.take(i as int)),
        decreases tabs.len() - i,
    {
        proof {
            assert(tabs@.take(i + 1).drop_last() =~= tabs@.take(i as int));
            assert(tabs@.take(i + 1).last() == tabs@[i as int]);
        }
        let n = tabs[i].layout.panes().len();
        if !over {
            if n > MAX_LAUNCH_PANES || total + n > MAX_LAUNCH_PANES {
                over = true;
            } else {
                total = total + n;
            }
        }
        i += 1;
    }
    assert(tabs@.take(i as int) =~= tabs@);
    over
}

/// Whether the command line is longer than Windows accepts.
fn too_long(args: &Vec<String>) -> (b: bool)
    ensures
        b == (args_length(texts_of(args@)) > MAX_COMMAND_LINE),
{
    let mut total: usize = 0;
    let mut over = false;
    let mut i: usize = 0;
    while i < args.len()
        invariant
            i <= args.len(),
            over == (args_length(texts_of(args@).take(i as int)) > MAX_COMMAND_LINE),
            !over ==> total == args_length(texts_of(args@).take(i as int)),
        decreases args.len() - i,
    {
        proof {
            assert(texts_of(args@).take(i + 1).drop_last() =~= texts_of(args@).take(i as int));
            assert(texts_of(args@).take(i + 1).last() == args@[i as int]@);
        }
        let n = args[i].as_str().as_bytes().len();
        if !over {
            if n > MAX_COMMAND_LINE || total + n + 3 > MAX_COMMAND_LINE {
                over = true;
            } else {
                total = total + n + 3;
            }
        }
        i += 1;
    }
    assert(texts_of(args@).take(i as int) =~= texts_of(args@));
    over
}

/// One new window with a tab per entry, the first one focused.
pub fn tabs_args(tabs: &[TabLaunch]) -> (r: Result<Vec<String>, String>)
    ensures
        args_outcome(r) == tabs_text(tabs@),
{
    if tabs.len() == 0 {
        return Err(string_from(ERR_NO_PROJECT));
    }
    if too_many_panes(tabs) {
        return Err(string_from(ERR_TOO_MANY_LAUNCH_PANES));
    }
    let mut out: Vec<String> = Vec::new();
    out.push(string_from(ARG_WINDOW));
    out.push(string_from(ARG_NEW));
    out.push(string_from(ARG_MAXIMIZED));
    assert(texts_of(out@) =~= window_args() + Seq::<Seq<char>>::empty());
    let mut index: usize = 0;
    while index < tabs.len()
        invariant
            index <= tabs.len(),
            tabs.len() > 0,
            total_panes(tabs@) <= MAX_LAUNCH_PANES,
            tabs_body(tabs@.take(index as int)) is Ok,
            texts_of(out@) == window_args() + tabs_body(tabs@.take(index as int))->Ok_0,
        decreases tabs.len() - index,
    {
        let ghost prefix = tabs@.take(index as int);
        let ghost before = texts_of(out@);
        proof {
            assert(tabs@.take(index + 1).drop_last() =~= prefix);
            assert(tabs@.take(index + 1).last() == tabs@[index as int]);
        }
        if index > 0 {
            out.push(string_from(ARG_SEPARATOR));
        }
        out.push(string_from(ARG_NEW_TAB));
        assert(texts_of(out@) =~= before + tab_start((index + 1) as nat));
        let ghost mid = texts_of(out@);
        if let Err(e) = tab_args(&tabs[index], &mut out) {
            proof {
                lemma_tabs_body_prefix(tabs@, index as int + 1);
            }
            return Err(e);
        }
        proof {
            let t = tabs@[index as int];
            let a = tab_text(*t.layout, t.distribution@, t.profile@, t.launches@)->Ok_0;
            assert(texts_of(out@) =~= window_args() + (tabs_body(prefix)->Ok_0 + (tab_start(
                (index + 1) as nat,
            ) + a)));
        }
        index += 1;
    }
    assert(tabs@.take(index as int) =~= tabs@);
    if tabs.len() > 1 {
        let ghost before = texts_of(out@);
        out.push(string_from(ARG_SEPARATOR));
        out.push(string_from(ARG_FOCUS_TAB));
        out.push(string_from(ARG_TARGET));
        out.push(string_from(ARG_FIRST_TAB));
        assert(texts_of(out@) =~= before + focus_tab_args());
    } else {
        assert(texts_of(out@) =~= texts_of(out@) + Seq::<Seq<char>>::empty());
    }
    if too_long(&out) {
        return Err(string_from(ERR_COMMAND_TOO_LONG));
    }
    Ok(out)
}

proof fn lemma_tabs_body_prefix(tabs: Seq<TabLaunch>, k: int)
    requires
        0 <= k <= tabs.len(),
        tabs_body(tabs.take(k)) is Err,
    ensures
        tabs_body(tabs) == tabs_body(tabs.take(k)),
    decreases tabs.len() - k,
{
    if k < tabs.len() {
        assert(tabs.take(k + 1).drop_last() =~= tabs.take(k));
        lemma_tabs_body_prefix(tabs, k + 1);
    } else {
        assert(tabs.take(k) =~= tabs);
    }
}

/// Focus moves "in order" rather than spatially, which is deterministic.
/// The pane name is only the initial title: interactive programs keep
/// the titles they set themselves.
/// `profile` names the Windows Terminal profile whose appearance (colors,
/// font) the Bash panes use; PowerShell panes use the profile Windows Terminal
/// generates for their program. Windows Terminal falls back to its default
/// profile when no profile has that name. Without it, a command line gets the
/// bare `profiles.defaults` look.
pub fn terminal_args(
    layout: &Layout,
    distribution: &str,
    profile: &str,
    launches: &StrMap<PaneLaunch>,
) -> (r: Result<Vec<String>, String>)
    ensures
        args_outcome(r) == tabs_text(seq![TabLaunch { layout, distribution, profile, launches }]),
{
    let tabs = [TabLaunch { layout, distribution, profile, launches }];
    assert(tabs@ =~= seq![TabLaunch { layout, distribution, profile, launches }]);
    tabs_args(tabs.as_slice())
}

} // verus!
