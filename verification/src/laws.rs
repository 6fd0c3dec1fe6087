//! Properties of the library as a whole, over the specifications the
//! functions' contracts use.
use vstd::prelude::*;
use crate::launch::distinct_pages;
use crate::model::{leaves, node_id, Config, Layout, Project, Template};
use crate::quote::{
    hex_digit, is_powershell_quote, percent_encoded, percent_piece, powershell_piece,
    powershell_quoted, shell_piece, shell_quoted, unreserved_mark,
};
use crate::separators::no_char;
use crate::text::is_ascii_alphanumeric_byte;
use crate::text::{concat_map, lemma_concat_map_append, lemma_concat_map_front};
use crate::encode::{base64, base64_chunk, base64_digit, chunk_value, le_bytes, utf16_units, utf16le};
use crate::output::{decoded, has_bom, is_high_surrogate, is_low_surrogate, le_units, utf16_decoded, zero_high_byte};
use crate::terminal::{
    args_length, lemma_check_tree_ok, tabs_text, total_panes, tree_ok, TabLaunch,
    MAX_COMMAND_LINE, MAX_LAUNCH_PANES,
};
use crate::validate::{
    check_layout, layout_error, config_error, project_error, project_ids, projects_error, template_error,
    template_ids, templates_error, MAX_PANES,
};

verus! {

/// A command line Windows Terminal receives opens at most 64 panes, all tabs
/// together, and fits in the length Windows accepts.
pub proof fn law_a_launch_opens_at_most_64_panes(tabs: Seq<TabLaunch>)
    requires
        tabs_text(tabs) is Ok,
    ensures
        total_panes(tabs) <= MAX_LAUNCH_PANES,
        args_length(tabs_text(tabs)->Ok_0) <= MAX_COMMAND_LINE,
{
}

/// `x` occurs in `items` only after some occurrence of `y`.
pub open spec fn first_after(items: Seq<Seq<char>>, y: Seq<char>, x: Seq<char>) -> bool {
    forall|c: int|
        0 <= c < items.len() && #[trigger] items[c] == x ==> exists|a: int|
            0 <= a < c && #[trigger] items[a] == y
}

/// The pages a launch opens: each once, every non-empty page of its projects
/// and nothing else, in the order the projects first name them.
pub proof fn law_pages_open_once_in_project_order(items: Seq<Seq<char>>)
    ensures
        distinct_pages(items).no_duplicates(),
        forall|x: Seq<char>|
            #[trigger] distinct_pages(items).contains(x) <==> (x.len() > 0 && items.contains(x)),
        forall|i: int, j: int|
            0 <= i < j < distinct_pages(items).len() ==> first_after(
                items,
                #[trigger] distinct_pages(items)[i],
                #[trigger] distinct_pages(items)[j],
            ),
    decreases items.len(),
{
    if items.len() > 0 {
        let prefix = items.drop_last();
        let x = items.last();
        let before = distinct_pages(prefix);
        law_pages_open_once_in_project_order(prefix);
        let d = distinct_pages(items);
        assert forall|y: Seq<char>| #[trigger] d.contains(y) <==> (y.len() > 0 && items.contains(y)) by {
            if d.contains(y) {
                let k = choose|k: int| 0 <= k < d.len() && d[k] == y;
                if k < before.len() {
                    assert(d[k] == before[k]);
                    assert(before.contains(y));
                    let m = choose|m: int| 0 <= m < prefix.len() && prefix[m] == y;
                    assert(items[m] == y);
                } else {
                    assert(y == x);
                    assert(items[items.len() - 1] == y);
                }
            }
            if y.len() > 0 && items.contains(y) {
                let k = choose|k: int| 0 <= k < items.len() && items[k] == y;
                if k < prefix.len() {
                    assert(prefix[k] == y);
                    assert(before.contains(y));
                    let m = choose|m: int| 0 <= m < before.len() && before[m] == y;
                    assert(d[m] == y);
                } else {
                    assert(y == x);
                    if before.contains(x) {
                        assert(d == before);
                    } else {
                        assert(d[before.len() as int] == y);
                    }
                }
            }
        }
        assert forall|i: int, j: int| 0 <= i < j < d.len() implies first_after(
            items,
            #[trigger] d[i],
            #[trigger] d[j],
        ) by {
            assert forall|c: int| 0 <= c < items.len() && #[trigger] items[c] == d[j] implies exists|
                a: int,
            | 0 <= a < c && #[trigger] items[a] == d[i] by {
                if j < before.len() {
                    assert(d[i] == before[i] && d[j] == before[j]);
                    if c < prefix.len() {
                        assert(prefix[c] == d[j]);
                        assert(first_after(prefix, before[i], before[j]));
                        let a = choose|a: int| 0 <= a < c && #[trigger] prefix[a] == d[i];
                        assert(items[a] == d[i]);
                    } else {
                        assert(before.contains(d[j]));
                        let c2 = choose|c2: int| 0 <= c2 < prefix.len() && prefix[c2] == d[j];
                        assert(first_after(prefix, before[i], before[j]));
                        assert(prefix[c2] == d[j]);
                        let a = choose|a: int| 0 <= a < c2 && #[trigger] prefix[a] == d[i];
                        assert(items[a] == d[i]);
                    }
                } else {
                    assert(d[j] == x);
                    assert(!before.contains(x));
                    assert(d[i] == before[i]);
                    assert(before.contains(before[i]));
                    let a = choose|a: int| 0 <= a < prefix.len() && prefix[a] == d[i];
                    assert(items[a] == d[i]);
                    if c < prefix.len() {
                        assert(prefix[c] == x);
                        assert(prefix.contains(x));
                    }
                }
            }
        }
    }
}

/// Each template passes its own check when all of them do.
proof fn lemma_templates_each(ts: Seq<Template>, i: int)
    requires
        templates_error(ts) is None,
        0 <= i < ts.len(),
    ensures
        template_error(ts[i], template_ids(ts.take(i))) is None,
    decreases ts.len(),
{
    if i < ts.len() - 1 {
        assert(ts.drop_last()[i] == ts[i]);
        assert(ts.drop_last().take(i) =~= ts.take(i));
        lemma_templates_each(ts.drop_last(), i);
    } else {
        assert(ts.take(i) =~= ts.drop_last());
    }
}

/// The templates of a valid configuration keep to the limits: at most 16
/// panes, split ratios from 10 to 90 %, and at most 20 levels of nesting.
pub proof fn law_valid_templates_keep_to_the_limits(c: Config, i: int)
    requires
        config_error(c) is None,
        0 <= i < c.templates.len(),
    ensures
        leaves(c.templates@[i].layout).len() <= MAX_PANES,
        tree_ok(c.templates@[i].layout, 0),
{
    let ts = c.templates@;
    assert(templates_error(ts) is None);
    lemma_templates_each(ts, i);
    let t = ts[i];
    lemma_check_tree_ok(t.layout, Seq::empty(), 0);
}

/// Two projects that differ at most in whether their URL is disabled.
pub open spec fn same_but_url_switch(a: Project, b: Project) -> bool {
    a == Project { url_disabled: a.url_disabled, ..b }
}

proof fn lemma_projects_error_url_switch(a: Seq<Project>, b: Seq<Project>, templates: Seq<Seq<char>>)
    requires
        a.len() == b.len(),
        forall|i: int| 0 <= i < a.len() ==> same_but_url_switch(#[trigger] a[i], b[i]),
    ensures
        projects_error(a, templates) == projects_error(b, templates),
        project_ids(a) == project_ids(b),
    decreases a.len(),
{
    assert(project_ids(a) =~= project_ids(b));
    if a.len() > 0 {
        assert forall|i: int| 0 <= i < a.len() - 1 implies same_but_url_switch(
            #[trigger] a.drop_last()[i],
            b.drop_last()[i],
        ) by {
            assert(a.drop_last()[i] == a[i]);
            assert(b.drop_last()[i] == b[i]);
        }
        lemma_projects_error_url_switch(a.drop_last(), b.drop_last(), templates);
        let (x, y) = (a.last(), b.last());
        assert(same_but_url_switch(a[a.len() - 1], b[a.len() - 1]));
        assert(x.id == y.id && x.name == y.name && x.root == y.root && x.host == y.host);
        assert(x.url == y.url && x.vscode_folder == y.vscode_folder);
        assert(x.distribution == y.distribution && x.terminal_profile == y.terminal_profile);
        assert(x.template_id == y.template_id && x.overrides == y.overrides);
        assert(project_error(x, project_ids(a.drop_last()), templates) == project_error(
            y,
            project_ids(b.drop_last()),
            templates,
        ));
    }
}

/// A disabled URL stays in the configuration and is held to the same rules:
/// whether a project's URL is disabled changes nothing of validation.
pub proof fn law_a_disabled_url_is_still_validated(a: Config, b: Config)
    requires
        a.schema_version == b.schema_version,
        a.workspace_root@ == b.workspace_root@,
        a.templates@ == b.templates@,
        a.projects.len() == b.projects.len(),
        forall|i: int|
            0 <= i < a.projects.len() ==> same_but_url_switch(#[trigger] a.projects@[i], b.projects@[i]),
    ensures
        config_error(a) == config_error(b),
{
    lemma_projects_error_url_switch(a.projects@, b.projects@, template_ids(a.templates@));
}

/// `c` in front of what `o` holds.
pub open spec fn prepend(c: char, o: Option<Seq<char>>) -> Option<Seq<char>> {
    match o {
        Some(r) => Some(seq![c] + r),
        None => None,
    }
}

/// How Bash reads a word made of single-quoted parts and backslash escapes,
/// `quoted` when inside single quotes: the text it stands for, or `None`
/// when the word holds anything else, which Bash could interpret.
pub open spec fn bash_word(w: Seq<char>, quoted: bool) -> Option<Seq<char>>
    decreases w.len(),
{
    if w.len() == 0 {
        if quoted {
            None
        } else {
            Some(Seq::empty())
        }
    } else if quoted {
        if w[0] == '\'' {
            bash_word(w.drop_first(), false)
        } else {
            prepend(w[0], bash_word(w.drop_first(), true))
        }
    } else if w[0] == '\'' {
        bash_word(w.drop_first(), true)
    } else if w[0] == '\\' && w.len() >= 2 {
        prepend(w[1], bash_word(w.subrange(2, w.len() as int), false))
    } else {
        None
    }
}

proof fn lemma_bash_reads_quoted(v: Seq<char>, rest: Seq<char>)
    ensures
        bash_word(concat_map(v, |c: char| shell_piece(c)) + seq!['\''] + rest, true) == match bash_word(
            rest,
            false,
        ) {
            Some(r) => Some(v + r),
            None => None,
        },
    decreases v.len(),
{
    let f = |c: char| shell_piece(c);
    if v.len() == 0 {
        assert(concat_map(v, f) + seq!['\''] + rest =~= seq!['\''] + rest);
        assert((seq!['\''] + rest).drop_first() =~= rest);
        match bash_word(rest, false) {
            Some(r) => assert(v + r =~= r),
            None => {},
        }
    } else {
        lemma_concat_map_front(v, f);
        let tail = v.drop_first();
        lemma_bash_reads_quoted(tail, rest);
        let after = concat_map(tail, f) + seq!['\''] + rest;
        let w = concat_map(v, f) + seq!['\''] + rest;
        if v[0] == '\'' {
            assert(w =~= seq!['\'', '\\', '\'', '\''] + after);
            let w1 = w.drop_first();
            let w2 = w1.subrange(2, w1.len() as int);
            assert(w2 =~= seq!['\''] + after);
            assert(w2.drop_first() =~= after);
            assert(bash_word(w, true) == bash_word(w1, false));
            assert(w1[0] == '\\' && w1[1] == '\'');
            assert(bash_word(w1, false) == prepend('\'', bash_word(w2, false)));
            assert(bash_word(w2, false) == bash_word(after, true));
        } else {
            assert(w =~= seq![v[0]] + after);
            assert(w.drop_first() =~= after);
            assert(bash_word(w, true) == prepend(v[0], bash_word(after, true)));
        }
        match bash_word(rest, false) {
            Some(r) => assert(seq![v[0]] + (tail + r) =~= v + r),
            None => {},
        }
    }
}

/// Bash reads a quoted value back unchanged, as one word: whatever a path,
/// a command or a host holds, only the commands themselves are interpreted.
pub proof fn law_bash_reads_quoted_values_back(v: Seq<char>)
    ensures
        bash_word(shell_quoted(v), false) == Some(v),
{
    let f = |c: char| shell_piece(c);
    lemma_bash_reads_quoted(v, Seq::empty());
    let q = shell_quoted(v);
    assert(q.drop_first() =~= concat_map(v, f) + seq!['\''] + Seq::<char>::empty());
    assert(v + Seq::<char>::empty() =~= v);
}

/// How PowerShell reads the inside of a single-quoted literal, up to its
/// closing quote, which must end `w`: a quote written twice stands for one.
pub open spec fn powershell_literal(w: Seq<char>) -> Option<Seq<char>>
    decreases w.len(),
{
    if w.len() == 0 {
        None
    } else if is_powershell_quote(w[0]) {
        if w.len() == 1 {
            Some(Seq::empty())
        } else if is_powershell_quote(w[1]) {
            prepend(w[1], powershell_literal(w.subrange(2, w.len() as int)))
        } else {
            None
        }
    } else {
        prepend(w[0], powershell_literal(w.drop_first()))
    }
}

proof fn lemma_powershell_reads_quoted(v: Seq<char>)
    ensures
        powershell_literal(concat_map(v, |c: char| powershell_piece(c)) + seq!['\'']) == Some(v),
    decreases v.len(),
{
    let f = |c: char| powershell_piece(c);
    if v.len() == 0 {
        assert(concat_map(v, f) + seq!['\''] =~= seq!['\'']);
        assert(v =~= Seq::<char>::empty());
    } else {
        lemma_concat_map_front(v, f);
        let tail = v.drop_first();
        lemma_powershell_reads_quoted(tail);
        let after = concat_map(tail, f) + seq!['\''];
        let w = concat_map(v, f) + seq!['\''];
        if is_powershell_quote(v[0]) {
            assert(w =~= seq![v[0], v[0]] + after);
            assert(w.subrange(2, w.len() as int) =~= after);
        } else {
            assert(w =~= seq![v[0]] + after);
            assert(w.drop_first() =~= after);
        }
        assert(seq![v[0]] + tail =~= v);
    }
}

/// PowerShell reads a quoted value back unchanged: `'` and the typographic
/// quotes it also takes for `'` are doubled.
pub proof fn law_powershell_reads_quoted_values_back(v: Seq<char>)
    ensures
        powershell_quoted(v)[0] == '\'',
        powershell_literal(powershell_quoted(v).drop_first()) == Some(v),
{
    lemma_powershell_reads_quoted(v);
    let f = |c: char| powershell_piece(c);
    assert(powershell_quoted(v).drop_first() =~= concat_map(v, f) + seq!['\'']);
}

/// The UTF-16 code units of a text.
pub open spec fn units_of(s: Seq<char>) -> Seq<u16> {
    concat_map(s, |c: char| utf16_units(c))
}

proof fn lemma_le_units(us: Seq<u16>)
    ensures
        le_units(concat_map(us, |u: u16| le_bytes(u))) == us,
    decreases us.len(),
{
    let f = |u: u16| le_bytes(u);
    if us.len() > 0 {
        lemma_le_units(us.drop_last());
        lemma_le_len(us);
        let b = concat_map(us, f);
        let a = concat_map(us.drop_last(), f);
        lemma_le_len(us.drop_last());
        assert(b == a + le_bytes(us.last()));
        assert forall|i: int| 0 <= i < us.len() implies #[trigger] le_units(b)[i] == us[i] by {
            if i < us.len() - 1 {
                assert(b[2 * i] == a[2 * i]);
                assert(b[2 * i + 1] == a[2 * i + 1]);
                assert(le_units(a)[i] == us.drop_last()[i]);
            } else {
                let u = us.last();
                assert(b[2 * i] == (u % 256) as u8);
                assert(b[2 * i + 1] == (u / 256) as u8);
            }
        }
        assert(le_units(b) =~= us);
    }
}

proof fn lemma_le_len(us: Seq<u16>)
    ensures
        concat_map(us, |u: u16| le_bytes(u)).len() == 2 * us.len(),
    decreases us.len(),
{
    if us.len() > 0 {
        lemma_le_len(us.drop_last());
    }
}

/// UTF-16LE is the little-endian bytes of the code units.
proof fn lemma_utf16le_units(s: Seq<char>)
    ensures
        utf16le(s) == concat_map(units_of(s), |u: u16| le_bytes(u)),
    decreases s.len(),
{
    let f = |u: u16| le_bytes(u);
    if s.len() > 0 {
        lemma_utf16le_units(s.drop_last());
        lemma_concat_map_append(units_of(s.drop_last()), utf16_units(s.last()), f);
    } else {
        assert(units_of(s) =~= Seq::<u16>::empty());
    }
}

/// Decoding the code units of one character, then of the rest.
proof fn lemma_decode_char(c: char, rest: Seq<u16>)
    ensures
        utf16_decoded(utf16_units(c) + rest) == seq![c] + utf16_decoded(rest),
{
    vstd::utf8::char_is_scalar(c);
    let v = c as u32;
    let us = utf16_units(c) + rest;
    if v < 0x10000 {
        let u = v as u16;
        assert(us[0] == u);
        assert(!is_high_surrogate(u) && !is_low_surrogate(u));
        assert(us.subrange(1, us.len() as int) =~= rest);
        assert((u as u32) == v);
        vstd::utf8::char_u32_cast(c, v);
    } else {
        let w = (v - 0x10000) as nat;
        assert(w < 0x100000);
        assert(w / 1024 < 1024 && w % 1024 < 1024) by (nonlinear_arith)
            requires
                w < 0x100000,
        ;
        let hi = (0xd800 + w / 1024) as u16;
        let lo = (0xdc00 + w % 1024) as u16;
        assert(us[0] == hi && us[1] == lo);
        assert(is_high_surrogate(hi) && is_low_surrogate(lo));
        assert(us.subrange(2, us.len() as int) =~= rest);
        assert((w / 1024) * 1024 + w % 1024 == w) by (nonlinear_arith);
        let back = (0x10000 + (hi - 0xD800) * 0x400 + (lo - 0xDC00)) as u32;
        assert(back == v);
        vstd::utf8::char_u32_cast(c, v);
    }
}

proof fn lemma_decode_units(s: Seq<char>)
    ensures
        utf16_decoded(units_of(s)) == s,
    decreases s.len(),
{
    if s.len() == 0 {
        assert(units_of(s) =~= Seq::<u16>::empty());
    } else {
        lemma_concat_map_front(s, |c: char| utf16_units(c));
        lemma_decode_char(s[0], units_of(s.drop_first()));
        lemma_decode_units(s.drop_first());
        assert(seq![s[0]] + s.drop_first() =~= s);
    }
}

/// What Windows programs print in UTF-16LE, after a byte order mark, reads
/// back as the text they meant.
pub proof fn law_utf16_output_with_a_mark_reads_back(s: Seq<char>)
    ensures
        decoded(seq![0xffu8, 0xfeu8] + utf16le(s)) == s,
{
    let bytes = seq![0xffu8, 0xfeu8] + utf16le(s);
    assert(has_bom(bytes));
    assert(bytes.subrange(2, bytes.len() as int) =~= utf16le(s));
    lemma_utf16le_units(s);
    lemma_le_units(units_of(s));
    lemma_decode_units(s);
}

/// What Windows programs print in UTF-16LE without a mark reads back as the
/// text they meant when it starts with a Latin-1 character, as the names of
/// distributions and the messages of `wsl.exe` do.
pub proof fn law_utf16_output_reads_back(s: Seq<char>)
    requires
        s.len() > 0,
        (s[0] as u32) < 0x100,
    ensures
        decoded(utf16le(s)) == s,
{
    let bytes = utf16le(s);
    lemma_utf16le_units(s);
    lemma_le_units(units_of(s));
    lemma_decode_units(s);
    lemma_concat_map_front(s, |c: char| utf16_units(c));
    lemma_le_len(units_of(s));
    let u0 = units_of(s)[0];
    assert(u0 == (s[0] as u32) as u16);
    lemma_concat_map_front(units_of(s), |u: u16| le_bytes(u));
    assert(bytes[1] == (u0 / 256) as u8);
    assert(bytes[1] == 0);
    assert(zero_high_byte(bytes)) by {
        assert(bytes[2 * 0int + 1] == 0);
    }
    assert(!has_bom(bytes));
}

/// A hexadecimal digit, either case.
pub open spec fn is_hex(c: char) -> bool {
    ('0' <= c <= '9') || ('A' <= c <= 'F') || ('a' <= c <= 'f')
}

/// The value of a hexadecimal digit.
pub open spec fn hex_value(c: char) -> nat {
    if '0' <= c <= '9' {
        (c as nat - '0' as nat) as nat
    } else if 'A' <= c <= 'F' {
        (c as nat - 'A' as nat + 10) as nat
    } else {
        (c as nat - 'a' as nat + 10) as nat
    }
}

/// `b` in front of what `o` holds.
pub open spec fn prepend_byte(b: u8, o: Option<Seq<u8>>) -> Option<Seq<u8>> {
    match o {
        Some(r) => Some(seq![b] + r),
        None => None,
    }
}

/// The bytes a URI component stands for, as VS Code decodes it: `%` and two
/// hexadecimal digits for a byte, any other ASCII character for itself;
/// `None` for anything else.
pub open spec fn percent_decoded(s: Seq<char>) -> Option<Seq<u8>>
    decreases s.len(),
{
    if s.len() == 0 {
        Some(Seq::empty())
    } else if s[0] == '%' {
        if s.len() >= 3 && is_hex(s[1]) && is_hex(s[2]) {
            prepend_byte(
                (hex_value(s[1]) * 16 + hex_value(s[2])) as u8,
                percent_decoded(s.subrange(3, s.len() as int)),
            )
        } else {
            None
        }
    } else if (s[0] as u32) < 0x80 {
        prepend_byte(s[0] as u8, percent_decoded(s.drop_first()))
    } else {
        None
    }
}

proof fn lemma_hex_digit(d: nat)
    requires
        d < 16,
    ensures
        is_hex(hex_digit(d)),
        hex_value(hex_digit(d)) == d,
{
}

proof fn lemma_percent_bytes(bs: Seq<u8>, keep: Seq<u8>)
    requires
        forall|i: int| 0 <= i < keep.len() ==> #[trigger] keep[i] < 0x80 && keep[i] != 0x25,
    ensures
        percent_decoded(concat_map(bs, |b: u8| percent_piece(b, keep))) == Some(bs),
    decreases bs.len(),
{
    let f = |b: u8| percent_piece(b, keep);
    if bs.len() == 0 {
        assert(concat_map(bs, f) =~= Seq::<char>::empty());
        assert(bs =~= Seq::<u8>::empty());
    } else {
        lemma_concat_map_front(bs, f);
        lemma_percent_bytes(bs.drop_first(), keep);
        let b = bs[0];
        let rest = concat_map(bs.drop_first(), f);
        let all = concat_map(bs, f);
        if is_ascii_alphanumeric_byte(b) || unreserved_mark(b) || keep.contains(b) {
            if keep.contains(b) {
                let k = choose|k: int| 0 <= k < keep.len() && keep[k] == b;
                assert(keep[k] < 0x80);
            }
            assert(b < 0x80 && b != 0x25);
            assert(all =~= seq![b as char] + rest);
            assert(all.drop_first() =~= rest);
            assert(((b as char) as u32) < 0x80);
            assert((b as char) as u8 == b);
        } else {
            lemma_hex_digit(b as nat / 16);
            lemma_hex_digit(b as nat % 16);
            assert(all =~= seq!['%', hex_digit(b as nat / 16), hex_digit(b as nat % 16)] + rest);
            assert(all.subrange(3, all.len() as int) =~= rest);
            assert((b as nat / 16) * 16 + b as nat % 16 == b);
        }
        assert(seq![b] + bs.drop_first() =~= bs);
    }
}

/// VS Code reads a percent-encoded value back as the UTF-8 of the text, when
/// the characters kept as they are hold no `%` and are ASCII, as `/` is.
pub proof fn law_percent_encoding_reads_back(v: Seq<char>, keep: Seq<char>)
    requires
        vstd::utf8::is_ascii_chars(keep),
        no_char(keep, '%'),
    ensures
        percent_decoded(percent_encoded(v, keep)) == Some(vstd::utf8::encode_utf8(v)),
{
    vstd::utf8::is_ascii_chars_encode_utf8(keep);
    let kb = vstd::utf8::encode_utf8(keep);
    assert forall|i: int| 0 <= i < kb.len() implies #[trigger] kb[i] < 0x80 && kb[i] != 0x25 by {
        assert(keep[i] as u8 == kb[i]);
        assert(keep[i] != '%');
        assert(keep[i] <= '\u{7f}');
    }
    lemma_percent_bytes(vstd::utf8::encode_utf8(v), kb);
}

/// A host percent-encoded for a VS Code remote authority holds no `@`, `:`
/// or `/`: the host stays one part of the URI.
pub proof fn law_encoded_hosts_stay_whole(v: Seq<char>)
    ensures
        no_char(percent_encoded(v, Seq::empty()), '@'),
        no_char(percent_encoded(v, Seq::empty()), ':'),
        no_char(percent_encoded(v, Seq::empty()), '/'),
{
    let bs = vstd::utf8::encode_utf8(v);
    let keep = vstd::utf8::encode_utf8(Seq::<char>::empty());
    assert(keep =~= Seq::<u8>::empty());
    lemma_pieces_plain(bs, keep);
}

proof fn lemma_pieces_plain(bs: Seq<u8>, keep: Seq<u8>)
    requires
        keep.len() == 0,
    ensures
        no_char(concat_map(bs, |b: u8| percent_piece(b, keep)), '@'),
        no_char(concat_map(bs, |b: u8| percent_piece(b, keep)), ':'),
        no_char(concat_map(bs, |b: u8| percent_piece(b, keep)), '/'),
    decreases bs.len(),
{
    let f = |b: u8| percent_piece(b, keep);
    if bs.len() > 0 {
        lemma_pieces_plain(bs.drop_last(), keep);
        let b = bs.last();
        assert(!keep.contains(b));
        let p = f(b);
        if is_ascii_alphanumeric_byte(b) || unreserved_mark(b) {
            assert(b != 0x40 && b != 0x3a && b != 0x2f);
            assert((b as char) as u32 == b);
        } else {
            lemma_hex_digit(b as nat / 16);
            lemma_hex_digit(b as nat % 16);
        }
        assert(no_char(p, '@') && no_char(p, ':') && no_char(p, '/'));
        crate::separators::lemma_no_char_concat(concat_map(bs.drop_last(), f), p, '@');
        crate::separators::lemma_no_char_concat(concat_map(bs.drop_last(), f), p, ':');
        crate::separators::lemma_no_char_concat(concat_map(bs.drop_last(), f), p, '/');
    }
}

/// The ids of a layout's nodes, splits and panes, in order from the root.
pub open spec fn node_ids(l: Layout) -> Seq<Seq<char>>
    decreases l,
{
    match l {
        Layout::Pane { id, .. } => seq![id@],
        Layout::Split { id, first, second, .. } => seq![id@] + node_ids(*first) + node_ids(*second),
    }
}

/// The ids of a layout's panes, left to right.
pub open spec fn pane_ids(l: Layout) -> Seq<Seq<char>>
    decreases l,
{
    match l {
        Layout::Pane { id, .. } => seq![id@],
        Layout::Split { first, second, .. } => pane_ids(*first) + pane_ids(*second),
    }
}

proof fn lemma_no_duplicates_concat(a: Seq<Seq<char>>, b: Seq<Seq<char>>)
    requires
        a.no_duplicates(),
        b.no_duplicates(),
        forall|x: Seq<char>| a.contains(x) ==> !b.contains(x),
    ensures
        (a + b).no_duplicates(),
{
    let c = a + b;
    assert forall|i: int, j: int| 0 <= i < c.len() && 0 <= j < c.len() && i != j implies c[i]
        != c[j] by {
        if i < a.len() && j >= a.len() {
            assert(c[i] == a[i] && c[j] == b[j - a.len()]);
            assert(a.contains(a[i]));
            assert(b.contains(b[j - a.len()]));
        } else if i >= a.len() && j < a.len() {
            assert(c[j] == a[j] && c[i] == b[i - a.len()]);
            assert(a.contains(a[j]));
            assert(b.contains(b[i - a.len()]));
        } else if i < a.len() {
            assert(c[i] == a[i] && c[j] == a[j]);
        } else {
            assert(c[i] == b[i - a.len()] && c[j] == b[j - a.len()]);
        }
    }
}

/// A layout that passes its check adds the ids of its nodes, each new.
proof fn lemma_checked_ids(l: Layout, ids: Seq<Seq<char>>, depth: nat)
    requires
        check_layout(l, ids, depth) is Ok,
    ensures
        check_layout(l, ids, depth)->Ok_0 == ids + node_ids(l),
        node_ids(l).no_duplicates(),
        forall|x: Seq<char>| node_ids(l).contains(x) ==> !ids.contains(x),
    decreases l,
{
    let own = node_id(l);
    let seen = ids.push(own);
    match l {
        Layout::Pane { id, .. } => {
            assert(node_ids(l) =~= seq![own]);
            assert(seen =~= ids + node_ids(l));
            assert forall|x: Seq<char>| node_ids(l).contains(x) implies !ids.contains(x) by {
                assert(node_ids(l)[0] == own);
            }
        },
        Layout::Split { first, second, .. } => {
            lemma_checked_ids(*first, seen, depth + 1);
            let after = check_layout(*first, seen, depth + 1)->Ok_0;
            lemma_checked_ids(*second, after, depth + 1);
            let n1 = node_ids(*first);
            let n2 = node_ids(*second);
            assert(node_ids(l) =~= seq![own] + n1 + n2);
            assert(check_layout(l, ids, depth)->Ok_0 =~= ids + node_ids(l));
            assert forall|x: Seq<char>| seq![own].contains(x) implies !n1.contains(x) by {
                assert(seq![own][0] == own);
                assert(x == own);
                assert(seen[ids.len() as int] == own);
                assert(seen.contains(own));
            }
            lemma_no_duplicates_concat(seq![own], n1);
            assert forall|x: Seq<char>| (seq![own] + n1).contains(x) implies !n2.contains(x) by {
                let k = choose|k: int| 0 <= k < (seq![own] + n1).len() && (seq![own] + n1)[k] == x;
                assert(after.contains(x)) by {
                    assert(after =~= seen + n1);
                    if k == 0 {
                        assert(after[ids.len() as int] == x);
                    } else {
                        assert(after[ids.len() + k] == x);
                    }
                }
            }
            lemma_no_duplicates_concat(seq![own] + n1, n2);
            assert forall|x: Seq<char>| node_ids(l).contains(x) implies !ids.contains(x) by {
                let k = choose|k: int| 0 <= k < node_ids(l).len() && node_ids(l)[k] == x;
                if k == 0 {
                    assert(x == own);
                } else if k < 1 + n1.len() {
                    assert(n1[k - 1] == x);
                    assert(n1.contains(x));
                    assert(!seen.contains(x));
                    assert forall|m: int| 0 <= m < ids.len() implies ids[m] != x by {
                        assert(seen[m] == ids[m]);
                    }
                } else {
                    assert(n2[k - 1 - n1.len()] == x);
                    assert(n2.contains(x));
                    assert(!after.contains(x));
                    assert(after =~= seen + n1);
                    assert forall|m: int| 0 <= m < ids.len() implies ids[m] != x by {
                        assert(after[m] == ids[m]);
                    }
                }
            }
        },
    }
}

/// The pane ids are among the node ids, each once when those are.
proof fn lemma_pane_ids(l: Layout)
    requires
        node_ids(l).no_duplicates(),
    ensures
        pane_ids(l).no_duplicates(),
        forall|x: Seq<char>| pane_ids(l).contains(x) ==> node_ids(l).contains(x),
    decreases l,
{
    match l {
        Layout::Pane { .. } => {},
        Layout::Split { id, first, second, .. } => {
            let n1 = node_ids(*first);
            let n2 = node_ids(*second);
            let all = seq![id@] + n1 + n2;
            assert(node_ids(l) =~= all);
            assert(n1.no_duplicates()) by {
                assert forall|i: int, j: int| 0 <= i < n1.len() && 0 <= j < n1.len() && i != j implies n1[i] != n1[j] by {
                    assert(all[1 + i] == n1[i] && all[1 + j] == n1[j]);
                }
            }
            assert(n2.no_duplicates()) by {
                assert forall|i: int, j: int| 0 <= i < n2.len() && 0 <= j < n2.len() && i != j implies n2[i] != n2[j] by {
                    assert(all[1 + n1.len() + i] == n2[i] && all[1 + n1.len() + j] == n2[j]);
                }
            }
            lemma_pane_ids(*first);
            lemma_pane_ids(*second);
            let p1 = pane_ids(*first);
            let p2 = pane_ids(*second);
            assert forall|x: Seq<char>| p1.contains(x) implies !p2.contains(x) by {
                if p2.contains(x) {
                    let a = choose|a: int| 0 <= a < n1.len() && n1[a] == x;
                    let b = choose|b: int| 0 <= b < n2.len() && n2[b] == x;
                    assert(all[1 + a] == x && all[1 + n1.len() + b] == x);
                }
            }
            lemma_no_duplicates_concat(p1, p2);
            assert forall|x: Seq<char>| pane_ids(l).contains(x) implies node_ids(l).contains(x) by {
                let k = choose|k: int| 0 <= k < (p1 + p2).len() && (p1 + p2)[k] == x;
                if k < p1.len() {
                    assert(p1[k] == x);
                    assert(p1.contains(x));
                    let a = choose|a: int| 0 <= a < n1.len() && n1[a] == x;
                    assert(all[1 + a] == x);
                } else {
                    assert(p2[k - p1.len()] == x);
                    assert(p2.contains(x));
                    let b = choose|b: int| 0 <= b < n2.len() && n2[b] == x;
                    assert(all[1 + n1.len() + b] == x);
                }
            }
        },
    }
}

/// In a layout that passes validation, no two nodes share an id, and so no
/// two panes do: each pane's launch is found by its id.
pub proof fn law_valid_layouts_name_each_pane_once(l: Layout)
    requires
        layout_error(l) is None,
    ensures
        node_ids(l).no_duplicates(),
        pane_ids(l).no_duplicates(),
{
    lemma_checked_ids(l, Seq::empty(), 0);
    lemma_pane_ids(l);
}

/// A base64 digit: ASCII letters, digits, `+` and `/`.
pub open spec fn is_base64_digit(c: char) -> bool {
    ('A' <= c <= 'Z') || ('a' <= c <= 'z') || ('0' <= c <= '9') || c == '+' || c == '/'
}

/// The value of a base64 digit.
pub open spec fn base64_value(c: char) -> nat {
    if 'A' <= c <= 'Z' {
        (c as nat - 'A' as nat) as nat
    } else if 'a' <= c <= 'z' {
        (c as nat - 'a' as nat + 26) as nat
    } else if '0' <= c <= '9' {
        (c as nat - '0' as nat + 52) as nat
    } else if c == '+' {
        62
    } else {
        63
    }
}

/// The bytes one group of four characters stands for, as RFC 4648 decodes
/// it: two, three or four digits, `=` padding the rest.
#[verifier::opaque]
pub open spec fn group_bytes(g: Seq<char>) -> Option<Seq<u8>> {
    let v2 = if g[2] == '=' {
        0
    } else {
        base64_value(g[2])
    };
    let v3 = if g[3] == '=' {
        0
    } else {
        base64_value(g[3])
    };
    let n = base64_value(g[0]) * 262144 + base64_value(g[1]) * 4096 + v2 * 64 + v3;
    if !(is_base64_digit(g[0]) && is_base64_digit(g[1])) {
        None
    } else if g[2] == '=' {
        if g[3] == '=' {
            Some(seq![(n / 65536) as u8])
        } else {
            None
        }
    } else if !is_base64_digit(g[2]) {
        None
    } else if g[3] == '=' {
        Some(seq![(n / 65536) as u8, (n / 256 % 256) as u8])
    } else if !is_base64_digit(g[3]) {
        None
    } else {
        Some(seq![(n / 65536) as u8, (n / 256 % 256) as u8, (n % 256) as u8])
    }
}

/// RFC 4648 base64 decoding: groups of four characters, padding only in the
/// last one; `None` for anything else.
pub open spec fn base64_decoded(s: Seq<char>) -> Option<Seq<u8>>
    decreases s.len(),
{
    if s.len() == 0 {
        Some(Seq::empty())
    } else if s.len() < 4 {
        None
    } else {
        match group_bytes(s.take(4)) {
            None => None,
            Some(b) => if b.len() < 3 && s.len() > 4 {
                None
            } else {
                match base64_decoded(s.skip(4)) {
                    Some(r) => Some(b + r),
                    None => None,
                }
            },
        }
    }
}

proof fn lemma_base64_digit_value(v: nat)
    requires
        v < 64,
    ensures
        is_base64_digit(base64_digit(v)),
        base64_value(base64_digit(v)) == v,
{
}

proof fn lemma_base64_bits(b0: u32, b1: u32, b2: u32)
    by (bit_vector)
    requires
        b0 < 256,
        b1 < 256,
        b2 < 256,
    ensures
        ((b0 * 65536 + b1 * 256 + b2) / 262144 % 64) * 262144 + ((b0 * 65536 + b1 * 256 + b2) / 4096
            % 64) * 4096 + ((b0 * 65536 + b1 * 256 + b2) / 64 % 64) * 64 + (b0 * 65536 + b1 * 256
            + b2) % 64 == b0 * 65536 + b1 * 256 + b2,
        (b0 * 65536 + b1 * 256 + b2) / 65536 == b0,
        (b0 * 65536 + b1 * 256 + b2) / 256 % 256 == b1,
        (b0 * 65536 + b1 * 256 + b2) % 256 == b2,
        b2 == 0 ==> (b0 * 65536 + b1 * 256 + b2) % 64 == 0,
        b1 == 0 && b2 == 0 ==> (b0 * 65536 + b1 * 256 + b2) / 64 % 64 == 0,
{
}

/// One chunk of one to three bytes decodes back to itself.
proof fn lemma_chunk_reads_back(c: Seq<u8>)
    requires
        1 <= c.len() <= 3,
    ensures
        group_bytes(base64_chunk(c)) == Some(c),
        is_base64_digit(base64_chunk(c)[0]),
        is_base64_digit(base64_chunk(c)[1]),
        c.len() == 3 ==> is_base64_digit(base64_chunk(c)[2]) && is_base64_digit(base64_chunk(c)[3]),
{
    let b0 = c[0] as u32;
    let b1: u32 = if c.len() > 1 {
        c[1] as u32
    } else {
        0
    };
    let b2: u32 = if c.len() > 2 {
        c[2] as u32
    } else {
        0
    };
    reveal(group_bytes);
    lemma_base64_bits(b0, b1, b2);
    let n = chunk_value(c);
    assert(n == b0 * 65536 + b1 * 256 + b2);
    lemma_base64_digit_value(n / 262144 % 64);
    lemma_base64_digit_value(n / 4096 % 64);
    lemma_base64_digit_value(n / 64 % 64);
    lemma_base64_digit_value(n % 64);
    let g = base64_chunk(c);
    if c.len() == 1 {
        assert(group_bytes(g) == Some(seq![(n / 65536) as u8]));
        assert(seq![(n / 65536) as u8] =~= c);
    } else if c.len() == 2 {
        assert(seq![(n / 65536) as u8, (n / 256 % 256) as u8] =~= c);
    } else {
        assert(seq![(n / 65536) as u8, (n / 256 % 256) as u8, (n % 256) as u8] =~= c);
    }
}

/// Decoding a first group, then the rest.
proof fn lemma_decoded_step(s: Seq<char>, c: Seq<char>, r: Seq<char>, x: Seq<u8>, y: Seq<u8>)
    requires
        s == c + r,
        c.len() == 4,
        group_bytes(c) == Some(x),
        x.len() == 3 || r.len() == 0,
        base64_decoded(r) == Some(y),
    ensures
        base64_decoded(s) == Some(x + y),
{
    assert(s.take(4) =~= c);
    assert(s.skip(4) =~= r);
}

/// Base64 is four characters for every three bytes or fewer, of the base64
/// alphabet but for at most two `=` at the end, and RFC 4648 decoding gives
/// the bytes back: the encoded PowerShell script reaches PowerShell whole.
pub proof fn law_base64_reads_back(b: Seq<u8>)
    ensures
        base64(b).len() == 4 * ((b.len() + 2) / 3),
        forall|i: int| 0 <= i < base64(b).len() - 2 ==> is_base64_digit(#[trigger] base64(b)[i]),
        base64_decoded(base64(b)) == Some(b),
    decreases b.len(),
{
    let s = base64(b);
    if b.len() == 0 {
        assert(b =~= Seq::<u8>::empty());
    } else if b.len() <= 3 {
        lemma_chunk_reads_back(b);
        assert(s =~= s + Seq::<char>::empty());
        lemma_decoded_step(s, s, Seq::empty(), b, Seq::empty());
        assert(b + Seq::<u8>::empty() =~= b);
    } else {
        let head = b.take(3);
        let tail = b.skip(3);
        law_base64_reads_back(tail);
        lemma_chunk_reads_back(head);
        let c = base64_chunk(head);
        let r = base64(tail);
        assert(s == c + r);
        lemma_decoded_step(s, c, r, head, tail);
        assert(head + tail =~= b);
        assert forall|i: int| 0 <= i < s.len() - 2 implies is_base64_digit(#[trigger] s[i]) by {
            if i < 4 {
                assert(s[i] == c[i]);
            } else {
                assert(s[i] == r[i - 4]);
            }
        }
    }
}

} // verus!
