//! What the arguments handed to Windows Terminal can hold: it ends a command
//! at each `;` argument, and may not pass `"` on to the program it starts.
use vstd::prelude::*;
use vstd::utf8::encode_utf8;
use crate::encode::{base64, base64_chunk, base64_digit};
use crate::quote::{shell_piece, shell_quoted};
use crate::scripts::{ssh_text, SSH_REMOTE, SSH_SPACE, SSH_START};
use crate::encode::utf16le;
use crate::model::{first_leaf, node_id, splits, Layout, RATIO_ONE};
use crate::strmap::lookup;
use crate::terminal::{
    and_then, axis_flag, command_args, commands_args, distribution_args, focus_args,
    focus_tab_args, launch_args, profile_args, script_path_ok, six_digits, size_text, tab_start,
    tab_text, tabs_body, tabs_text, walk_commands, window_args, wsl_args, Args, PaneCommand,
    PaneLaunch, TabLaunch, ARG_BASH, ARG_END, ARG_EXEC, ARG_LOGIN_INTERACTIVE, ARG_SEPARATOR,
    ARG_SIZE, ARG_SPLIT_PANE, ARG_TITLE, ARG_WSL, RCFILE_END, RCFILE_START,
};
use crate::text::{concat_map, decimal, digit, is_ascii_alphanumeric_byte};
use crate::validate::{check_layout, forbidden_chars, host_byte_ok, host_ok, text_ok};

verus! {

/// `s` holds no `c`.
pub open spec fn no_char(s: Seq<char>, c: char) -> bool {
    forall|i: int| 0 <= i < s.len() ==> #[trigger] s[i] != c
}

pub proof fn lemma_no_char_concat(a: Seq<char>, b: Seq<char>, c: char)
    requires
        no_char(a, c),
        no_char(b, c),
    ensures
        no_char(a + b, c),
{
    assert forall|i: int| 0 <= i < (a + b).len() implies #[trigger] (a + b)[i] != c by {
        if i < a.len() {
            assert((a + b)[i] == a[i]);
        } else {
            assert((a + b)[i] == b[i - a.len()]);
        }
    }
}

/// A quoted value holds no character it did not hold, but quotes and
/// backslashes.
pub proof fn lemma_quoted_no_char(v: Seq<char>, c: char)
    requires
        no_char(v, c),
        c != '\'',
        c != '\\',
    ensures
        no_char(shell_quoted(v), c),
{
    lemma_pieces_no_char(v, c);
    lemma_no_char_concat(seq!['\''], concat_map(v, |x: char| shell_piece(x)), c);
    lemma_no_char_concat(
        seq!['\''] + concat_map(v, |x: char| shell_piece(x)),
        seq!['\''],
        c,
    );
}

proof fn lemma_pieces_no_char(v: Seq<char>, c: char)
    requires
        no_char(v, c),
        c != '\'',
        c != '\\',
    ensures
        no_char(concat_map(v, |x: char| shell_piece(x)), c),
    decreases v.len(),
{
    if v.len() > 0 {
        let f = |x: char| shell_piece(x);
        assert(no_char(v.drop_last(), c)) by {
            assert forall|i: int| 0 <= i < v.drop_last().len() implies #[trigger] v.drop_last()[i]
                != c by {
                assert(v.drop_last()[i] == v[i]);
            }
        }
        lemma_pieces_no_char(v.drop_last(), c);
        assert(v.last() == v[v.len() - 1]);
        lemma_no_char_concat(concat_map(v.drop_last(), f), f(v.last()), c);
    }
}

/// A character base64 writes.
pub open spec fn base64_char(c: char) -> bool {
    ('A' <= c <= 'Z') || ('a' <= c <= 'z') || ('0' <= c <= '9') || c == '+' || c == '/' || c
        == '='
}

proof fn lemma_base64_digit(v: nat)
    requires
        v < 64,
    ensures
        base64_char(base64_digit(v)),
{
}

/// Base64 writes letters, digits, `+`, `/` and `=` only.
pub proof fn lemma_base64_alphabet(b: Seq<u8>)
    ensures
        forall|i: int| 0 <= i < base64(b).len() ==> base64_char(#[trigger] base64(b)[i]),
    decreases b.len(),
{
    if b.len() == 0 {
    } else {
        let first = if b.len() <= 3 {
            b
        } else {
            b.take(3)
        };
        let n = crate::encode::chunk_value(first);
        lemma_base64_digit(n / 262144 % 64);
        lemma_base64_digit(n / 4096 % 64);
        lemma_base64_digit(n / 64 % 64);
        lemma_base64_digit(n % 64);
        let chunk = base64_chunk(first);
        assert(forall|i: int| 0 <= i < chunk.len() ==> base64_char(#[trigger] chunk[i]));
        if b.len() > 3 {
            lemma_base64_alphabet(b.skip(3));
            let rest = base64(b.skip(3));
            assert forall|i: int| 0 <= i < base64(b).len() implies base64_char(
                #[trigger] base64(b)[i],
            ) by {
                if i < 4 {
                    assert(base64(b)[i] == chunk[i]);
                } else {
                    assert(base64(b)[i] == rest[i - 4]);
                }
            }
        }
    }
}

/// Base64 holds no `;` and no `"`.
pub proof fn lemma_base64_plain(b: Seq<u8>)
    ensures
        no_char(base64(b), ';'),
        no_char(base64(b), '"'),
{
    lemma_base64_alphabet(b);
}

/// Decimal numbers are digits.
pub proof fn lemma_decimal_digits(n: nat)
    ensures
        forall|i: int| 0 <= i < decimal(n).len() ==> '0' <= #[trigger] decimal(n)[i] <= '9',
    decreases n,
{
    if n >= 10 {
        lemma_decimal_digits(n / 10);
        assert(decimal(n) == decimal(n / 10).push(digit(n % 10)));
    }
}

/// The UTF-8 of two texts end to end.
pub proof fn lemma_encode_append(a: Seq<char>, b: Seq<char>)
    ensures
        encode_utf8(a + b) == encode_utf8(a) + encode_utf8(b),
    decreases a.len(),
{
    if a.len() == 0 {
        assert(a + b =~= b);
        assert(encode_utf8(a) + encode_utf8(b) =~= encode_utf8(b));
    } else {
        assert((a + b)[0] == a[0]);
        assert((a + b).drop_first() =~= a.drop_first() + b);
        lemma_encode_append(a.drop_first(), b);
    }
}

/// The byte of `;` or `"` in UTF-8.
pub open spec fn ascii_byte(c: char) -> u8 {
    if c == ';' {
        0x3b
    } else {
        0x22
    }
}

/// A `;` or `"` of a text is one of its UTF-8 bytes.
pub proof fn lemma_ascii_byte(s: Seq<char>, i: int)
    requires
        0 <= i < s.len(),
        s[i] == ';' || s[i] == '"',
    ensures
        exists|k: int|
            0 <= k < encode_utf8(s).len() && #[trigger] encode_utf8(s)[k] == ascii_byte(s[i]),
{
    let a = s.take(i);
    let b = s.skip(i);
    assert(s =~= a + b);
    lemma_encode_append(a, b);
    let one = seq![s[i]];
    assert(b =~= one + b.drop_first());
    lemma_encode_append(one, b.drop_first());
    assert(one.drop_first() =~= Seq::<char>::empty());
    assert(encode_utf8(one) == vstd::utf8::encode_scalar(s[i] as u32) + encode_utf8(
        Seq::<char>::empty(),
    ));
    let v = s[i] as u32;
    assert(v == 59 || v == 34);
    assert(v == 59 || v == 34 ==> (v & 0x7F) as u8 == v as u8) by (bit_vector);
    if s[i] == ';' {
        assert(encode_utf8(one) =~= seq![0x3bu8]);
    } else {
        assert(encode_utf8(one) =~= seq![0x22u8]);
    }
    let k = encode_utf8(a).len() as int;
    assert(encode_utf8(s)[k] == encode_utf8(one)[0]);
}

/// A host `ssh` accepts holds no `;` and no `"`.
pub proof fn lemma_host_plain(host: Seq<char>)
    requires
        host_ok(host),
    ensures
        no_char(host, ';'),
        no_char(host, '"'),
{
    assert forall|i: int| 0 <= i < host.len() implies #[trigger] host[i] != ';' && host[i]
        != '"' by {
        if host[i] == ';' || host[i] == '"' {
            lemma_ascii_byte(host, i);
            let k = choose|k: int|
                0 <= k < encode_utf8(host).len() && #[trigger] encode_utf8(host)[k] == ascii_byte(
                    host[i],
                );
            assert(host_byte_ok(encode_utf8(host)[k]));
        }
    }
}

/// The command an SSH pane runs holds no `;` and no `"`: Windows Terminal
/// keeps it whole and hands it to `wsl.exe` as it is.
pub proof fn law_ssh_commands_hold_no_semicolon_or_quote(host: Seq<char>, script: Seq<char>)
    requires
        ssh_text(host, script) is Ok,
    ensures
        no_char(ssh_text(host, script)->Ok_0, ';'),
        no_char(ssh_text(host, script)->Ok_0, '"'),
{
    reveal_strlit("exec ssh -t -- ");
    reveal_strlit(" ");
    reveal_strlit("exec bash -lc 'exec bash --rcfile <(base64 -d <<<$1) -i' runterm ");
    lemma_host_plain(host);
    let b = base64(encode_utf8(script));
    lemma_base64_plain(encode_utf8(script));
    let remote = SSH_REMOTE@ + b;
    assert(no_char(SSH_REMOTE@, ';') && no_char(SSH_REMOTE@, '"'));
    assert(no_char(SSH_START@, ';') && no_char(SSH_START@, '"'));
    assert(no_char(SSH_SPACE@, ';') && no_char(SSH_SPACE@, '"'));
    lemma_no_char_concat(SSH_REMOTE@, b, ';');
    lemma_no_char_concat(SSH_REMOTE@, b, '"');
    lemma_quoted_no_char(host, ';');
    lemma_quoted_no_char(host, '"');
    lemma_quoted_no_char(remote, ';');
    lemma_quoted_no_char(remote, '"');
    let qh = shell_quoted(host);
    let qr = shell_quoted(remote);
    lemma_no_char_concat(SSH_START@, qh, ';');
    lemma_no_char_concat(SSH_START@ + qh, SSH_SPACE@, ';');
    lemma_no_char_concat(SSH_START@ + qh + SSH_SPACE@, qr, ';');
    lemma_no_char_concat(SSH_START@, qh, '"');
    lemma_no_char_concat(SSH_START@ + qh, SSH_SPACE@, '"');
    lemma_no_char_concat(SSH_START@ + qh + SSH_SPACE@, qr, '"');
}

/// No argument holds `;` but the separators, which are `;` alone.
pub open spec fn separated(args: Seq<Seq<char>>) -> bool {
    forall|i: int| 0 <= i < args.len() ==> #[trigger] args[i] == ARG_SEPARATOR@ || no_char(args[i], ';')
}

proof fn lemma_separated_concat(a: Seq<Seq<char>>, b: Seq<Seq<char>>)
    requires
        separated(a),
        separated(b),
    ensures
        separated(a + b),
{
    assert forall|i: int| 0 <= i < (a + b).len() implies #[trigger] (a + b)[i] == ARG_SEPARATOR@
        || no_char((a + b)[i], ';') by {
        if i < a.len() {
            assert((a + b)[i] == a[i]);
        } else {
            assert((a + b)[i] == b[i - a.len()]);
        }
    }
}

proof fn lemma_and_then_separated(a: Result<Args, Seq<char>>, b: Result<Args, Seq<char>>)
    requires
        a is Ok ==> separated(a->Ok_0),
        b is Ok ==> separated(b->Ok_0),
    ensures
        and_then(a, b) is Ok ==> separated(and_then(a, b)->Ok_0),
{
    if a is Ok && b is Ok {
        lemma_separated_concat(a->Ok_0, b->Ok_0);
    }
}

/// The title a pane starts with.
pub open spec fn pane_label(pane: Layout) -> Seq<char> {
    match pane {
        Layout::Pane { name, .. } => name@,
        Layout::Split { id, .. } => id@,
    }
}

/// No pane of `l` has a `;` in its name.
pub open spec fn names_free(l: Layout) -> bool
    decreases l,
{
    match l {
        Layout::Pane { name, .. } => no_char(name@, ';'),
        Layout::Split { first, second, .. } => names_free(*first) && names_free(*second),
    }
}

proof fn lemma_text_ok_free(v: Seq<char>)
    requires
        text_ok(v),
    ensures
        no_char(v, ';'),
{
    assert forall|i: int| 0 <= i < v.len() implies #[trigger] v[i] != ';' by {
        if v[i] == ';' {
            assert(forbidden_chars()[3] == ';');
            assert(forbidden_chars().contains(v[i]));
        }
    }
}

pub(crate) proof fn lemma_checked_names_free(l: Layout, ids: Seq<Seq<char>>, depth: nat)
    requires
        check_layout(l, ids, depth) is Ok,
    ensures
        names_free(l),
    decreases l,
{
    match l {
        Layout::Pane { name, .. } => {
            lemma_text_ok_free(name@);
        },
        Layout::Split { first, second, .. } => {
            let seen = ids.push(node_id(l));
            lemma_checked_names_free(*first, seen, depth + 1);
            let after = check_layout(*first, seen, depth + 1)->Ok_0;
            lemma_checked_names_free(*second, after, depth + 1);
        },
    }
}

pub(crate) proof fn lemma_first_leaf_free(l: Layout)
    requires
        names_free(l),
    ensures
        no_char(pane_label(first_leaf(l)), ';'),
    decreases l,
{
    if let Layout::Split { first, .. } = l {
        lemma_first_leaf_free(*first);
    }
}

/// The panes the commands split in hold no `;` in their names.
pub open spec fn commands_free(cs: Seq<PaneCommand>) -> bool {
    forall|i: int|
        0 <= i < cs.len() ==> (#[trigger] cs[i] matches PaneCommand::SplitPane(_, _, p) ==> no_char(
            pane_label(p),
            ';',
        ))
}

pub(crate) proof fn lemma_commands_free_concat(a: Seq<PaneCommand>, b: Seq<PaneCommand>)
    requires
        commands_free(a),
        commands_free(b),
    ensures
        commands_free(a + b),
{
    assert forall|i: int| 0 <= i < (a + b).len() implies (#[trigger] (a + b)[i] matches PaneCommand::SplitPane(
        _,
        _,
        p,
    ) ==> no_char(pane_label(p), ';')) by {
        if i < a.len() {
            assert((a + b)[i] == a[i]);
        } else {
            assert((a + b)[i] == b[i - a.len()]);
        }
    }
}

pub(crate) proof fn lemma_walk_free(node: Layout, index: nat, next: nat)
    requires
        names_free(node),
    ensures
        commands_free(walk_commands(node, index, next)),
    decreases node,
{
    if let Layout::Split { axis, ratio, first, second, .. } = node {
        lemma_first_leaf_free(*second);
        let head = seq![
            PaneCommand::FocusPane(index),
            PaneCommand::SplitPane(axis, ratio, first_leaf(*second)),
        ];
        assert(commands_free(head));
        lemma_walk_free(*first, index, next + 1);
        lemma_walk_free(*second, next, next + 1 + splits(*first));
        let a = walk_commands(*first, index, next + 1);
        let b = walk_commands(*second, next, next + 1 + splits(*first));
        lemma_commands_free_concat(head, a);
        lemma_commands_free_concat(head + a, b);
    }
}

/// The arguments starting a pane hold no `;`.
proof fn lemma_launch_separated(
    pane: Layout,
    distribution: Seq<char>,
    profile: Seq<char>,
    launches: Seq<(Seq<char>, PaneLaunch)>,
)
    requires
        no_char(pane_label(pane), ';'),
        no_char(distribution, ';'),
        no_char(profile, ';'),
        launch_args(pane, distribution, profile, launches) is Ok,
    ensures
        separated(launch_args(pane, distribution, profile, launches)->Ok_0),
{
    reveal(launch_args);
    reveal_strlit("--profile");
    reveal_strlit("--title");
    reveal_strlit("--");
    reveal_strlit("wsl.exe");
    reveal_strlit("--distribution");
    reveal_strlit("--exec");
    reveal_strlit("bash");
    reveal_strlit("-lic");
    reveal_strlit("exec bash --rcfile ");
    reveal_strlit(" -i");
    reveal_strlit("PowerShell");
    reveal_strlit("Windows PowerShell");
    reveal_strlit("pwsh.exe");
    reveal_strlit("powershell.exe");
    reveal_strlit("-NoLogo");
    reveal_strlit("-NoExit");
    reveal_strlit("-EncodedCommand");
    let name = pane_label(pane);
    let base = wsl_args(name, distribution, profile);
    assert(separated(profile_args(profile)));
    assert(separated(distribution_args(distribution)));
    assert(separated(seq![ARG_TITLE@, name, ARG_END@, ARG_WSL@]));
    assert(separated(seq![ARG_EXEC@, ARG_BASH@, ARG_LOGIN_INTERACTIVE@]));
    lemma_separated_concat(profile_args(profile), seq![ARG_TITLE@, name, ARG_END@, ARG_WSL@]);
    lemma_separated_concat(
        profile_args(profile) + seq![ARG_TITLE@, name, ARG_END@, ARG_WSL@],
        distribution_args(distribution),
    );
    lemma_separated_concat(
        profile_args(profile) + seq![ARG_TITLE@, name, ARG_END@, ARG_WSL@] + distribution_args(
            distribution,
        ),
        seq![ARG_EXEC@, ARG_BASH@, ARG_LOGIN_INTERACTIVE@],
    );
    assert(separated(base));
    match lookup(launches, node_id(pane)) {
        Some(PaneLaunch::Bash(path)) => {
            lemma_script_path_free(path@);
            lemma_quoted_no_char(path@, ';');
            let last = RCFILE_START@ + shell_quoted(path@) + RCFILE_END@;
            lemma_no_char_concat(RCFILE_START@, shell_quoted(path@), ';');
            lemma_no_char_concat(RCFILE_START@ + shell_quoted(path@), RCFILE_END@, ';');
            lemma_separated_concat(base, seq![last]);
            assert(base.push(last) =~= base + seq![last]);
        },
        Some(PaneLaunch::Ssh { host, script }) => {
            law_ssh_commands_hold_no_semicolon_or_quote(host@, script@);
            let c = ssh_text(host@, script@)->Ok_0;
            lemma_separated_concat(base, seq![c]);
            assert(base.push(c) =~= base + seq![c]);
        },
        Some(PaneLaunch::Powershell { script, pwsh }) => {
            lemma_base64_plain(utf16le(script@));
        },
        None => {},
    }
}

/// A path the launch accepts holds no `;`.
pub(crate) proof fn lemma_script_path_free(path: Seq<char>)
    requires
        script_path_ok(path),
    ensures
        no_char(path, ';'),
{
    assert forall|i: int| 0 <= i < path.len() implies #[trigger] path[i] != ';' by {
        if path[i] == ';' {
            lemma_ascii_byte(path, i);
            let k = choose|k: int|
                0 <= k < encode_utf8(path).len() && #[trigger] encode_utf8(path)[k] == ascii_byte(
                    path[i],
                );
            let b = encode_utf8(path)[k];
            assert(is_ascii_alphanumeric_byte(b) || b == 0x2f || b == 0x2e || b == 0x2d || b
                == 0x5f);
        }
    }
}

proof fn lemma_six_digits(m: nat)
    ensures
        no_char(six_digits(m), ';'),
{
}

proof fn lemma_command_separated(
    c: PaneCommand,
    distribution: Seq<char>,
    profile: Seq<char>,
    launches: Seq<(Seq<char>, PaneLaunch)>,
)
    requires
        c matches PaneCommand::SplitPane(_, _, p) ==> no_char(pane_label(p), ';'),
        no_char(distribution, ';'),
        no_char(profile, ';'),
        command_args(c, distribution, profile, launches) is Ok,
    ensures
        separated(command_args(c, distribution, profile, launches)->Ok_0),
{
    reveal_strlit(";");
    reveal_strlit("focus-pane");
    reveal_strlit("--target");
    reveal_strlit("split-pane");
    reveal_strlit("-V");
    reveal_strlit("-H");
    reveal_strlit("--size");
    match c {
        PaneCommand::FocusPane(i) => {
            lemma_decimal_digits(i);
            assert(no_char(decimal(i), ';'));
        },
        PaneCommand::SplitPane(axis, ratio, pane) => {
            lemma_six_digits((RATIO_ONE - ratio) as nat);
            lemma_no_char_concat(seq!['0', '.'], six_digits((RATIO_ONE - ratio) as nat), ';');
            let head = seq![
                ARG_SEPARATOR@,
                ARG_SPLIT_PANE@,
                axis_flag(axis),
                ARG_SIZE@,
                size_text(ratio),
            ];
            assert(separated(head));
            lemma_launch_separated(pane, distribution, profile, launches);
            lemma_and_then_separated(
                Ok(head),
                launch_args(pane, distribution, profile, launches),
            );
        },
    }
}

proof fn lemma_commands_separated(
    cs: Seq<PaneCommand>,
    distribution: Seq<char>,
    profile: Seq<char>,
    launches: Seq<(Seq<char>, PaneLaunch)>,
)
    requires
        commands_free(cs),
        no_char(distribution, ';'),
        no_char(profile, ';'),
        commands_args(cs, distribution, profile, launches) is Ok,
    ensures
        separated(commands_args(cs, distribution, profile, launches)->Ok_0),
    decreases cs.len(),
{
    if cs.len() == 0 {
        assert(separated(Seq::<Seq<char>>::empty()));
    } else {
        assert(commands_free(cs.drop_last())) by {
            assert forall|i: int| 0 <= i < cs.drop_last().len() implies (
            #[trigger] cs.drop_last()[i] matches PaneCommand::SplitPane(_, _, p) ==> no_char(
                pane_label(p),
                ';',
            )) by {
                assert(cs.drop_last()[i] == cs[i]);
            }
        }
        assert(cs.last() == cs[cs.len() - 1]);
        let rest = commands_args(cs.drop_last(), distribution, profile, launches);
        let last = command_args(cs.last(), distribution, profile, launches);
        if rest is Ok {
            lemma_commands_separated(cs.drop_last(), distribution, profile, launches);
        }
        if last is Ok {
            lemma_command_separated(cs.last(), distribution, profile, launches);
        }
        lemma_and_then_separated(rest, last);
    }
}

proof fn lemma_tab_separated(
    layout: Layout,
    distribution: Seq<char>,
    profile: Seq<char>,
    launches: Seq<(Seq<char>, PaneLaunch)>,
)
    requires
        no_char(distribution, ';'),
        no_char(profile, ';'),
        tab_text(layout, distribution, profile, launches) is Ok,
    ensures
        separated(tab_text(layout, distribution, profile, launches)->Ok_0),
{
    reveal(tab_text);
    reveal_strlit(";");
    reveal_strlit("focus-pane");
    reveal_strlit("--target");
    lemma_checked_names_free(layout, Seq::empty(), 0);
    lemma_first_leaf_free(layout);
    lemma_walk_free(layout, 0, 1);
    let first = launch_args(first_leaf(layout), distribution, profile, launches);
    let rest = commands_args(walk_commands(layout, 0, 1), distribution, profile, launches);
    if first is Ok {
        lemma_launch_separated(first_leaf(layout), distribution, profile, launches);
    }
    if rest is Ok {
        lemma_commands_separated(walk_commands(layout, 0, 1), distribution, profile, launches);
    }
    lemma_and_then_separated(first, rest);
    lemma_decimal_digits(0);
    let focus: Args = if layout is Split {
        focus_args(0)
    } else {
        Seq::empty()
    };
    assert(separated(focus));
    lemma_and_then_separated(and_then(first, rest), Ok(focus));
}

proof fn lemma_tabs_body_separated(tabs: Seq<TabLaunch>)
    requires
        forall|i: int|
            0 <= i < tabs.len() ==> no_char((#[trigger] tabs[i]).distribution@, ';') && no_char(
                tabs[i].profile@,
                ';',
            ),
        tabs_body(tabs) is Ok,
    ensures
        separated(tabs_body(tabs)->Ok_0),
    decreases tabs.len(),
{
    reveal_strlit(";");
    reveal_strlit("new-tab");
    if tabs.len() == 0 {
        assert(separated(Seq::<Seq<char>>::empty()));
    } else {
        let t = tabs.last();
        assert(t == tabs[tabs.len() - 1]);
        assert forall|i: int| 0 <= i < tabs.drop_last().len() implies no_char(
            (#[trigger] tabs.drop_last()[i]).distribution@,
            ';',
        ) && no_char(tabs.drop_last()[i].profile@, ';') by {
            assert(tabs.drop_last()[i] == tabs[i]);
        }
        let rest = tabs_body(tabs.drop_last());
        let this = tab_text(*t.layout, t.distribution@, t.profile@, t.launches@);
        if rest is Ok {
            lemma_tabs_body_separated(tabs.drop_last());
        }
        if this is Ok {
            lemma_tab_separated(*t.layout, t.distribution@, t.profile@, t.launches@);
        }
        assert(separated(tab_start(tabs.len())));
        lemma_and_then_separated(Ok(tab_start(tabs.len())), this);
        lemma_and_then_separated(rest, and_then(Ok(tab_start(tabs.len())), this));
    }
}

/// Windows Terminal ends a command at each `;` argument: in a command line
/// that opens projects, `;` stands alone, as a separator, and in no other
/// argument, whatever the panes' names, scripts and hosts hold, when the
/// distributions and profiles hold none.
pub proof fn law_semicolons_only_separate_commands(tabs: Seq<TabLaunch>)
    requires
        tabs_text(tabs) is Ok,
        forall|i: int|
            0 <= i < tabs.len() ==> no_char((#[trigger] tabs[i]).distribution@, ';') && no_char(
                tabs[i].profile@,
                ';',
            ),
    ensures
        separated(tabs_text(tabs)->Ok_0),
{
    reveal_strlit(";");
    reveal_strlit("-w");
    reveal_strlit("new");
    reveal_strlit("--maximized");
    reveal_strlit("focus-tab");
    reveal_strlit("--target");
    reveal_strlit("0");
    lemma_tabs_body_separated(tabs);
    let body = tabs_body(tabs)->Ok_0;
    assert(separated(window_args()));
    assert(separated(focus_tab_args()));
    assert(separated(Seq::<Seq<char>>::empty()));
    lemma_separated_concat(window_args(), body);
    let tail: Args = if tabs.len() > 1 {
        focus_tab_args()
    } else {
        Seq::empty()
    };
    lemma_separated_concat(window_args() + body, tail);
}

} // verus!
