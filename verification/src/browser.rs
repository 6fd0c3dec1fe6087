//! The default browser, read from the registry, and the command line
//! opening the projects' pages in it.
use vstd::prelude::*;
use crate::text::{
    ascii_lower, chars_of, has_any, lower_char, lower_seq, push_char, str_eq, string_from,
    string_of, texts_of, trim, trim_bounds,
};

verus! {

pub const REG_EXPAND_SZ: &'static str = "REG_EXPAND_SZ";
pub const REG_SZ: &'static str = "REG_SZ";
pub const NEW_WINDOW: &'static str = "--new-window";

/// First position, from `i` on, where `p` occurs in `s`.
pub open spec fn find_from(s: Seq<char>, p: Seq<char>, i: int) -> Option<int>
    decreases s.len() + 1 - i,
{
    if i < 0 || i + p.len() > s.len() {
        None
    } else if s.subrange(i, i + p.len()) == p {
        Some(i)
    } else {
        find_from(s, p, i + 1)
    }
}

/// First position where `p` occurs in `s`.
pub open spec fn find(s: Seq<char>, p: Seq<char>) -> Option<int> {
    find_from(s, p, 0)
}

pub proof fn lemma_find_from_bounds(s: Seq<char>, p: Seq<char>, i: int)
    ensures
        find_from(s, p, i) matches Some(k) ==> i <= k && 0 <= k && k + p.len() <= s.len()
            && s.subrange(k, k + p.len()) == p,
    decreases s.len() + 1 - i,
{
    if !(i < 0 || i + p.len() > s.len()) && s.subrange(i, i + p.len()) != p {
        lemma_find_from_bounds(s, p, i + 1);
    }
}

pub proof fn lemma_find_bounds(s: Seq<char>, p: Seq<char>)
    ensures
        find(s, p) matches Some(k) ==> 0 <= k && k + p.len() <= s.len() && s.subrange(
            k,
            k + p.len(),
        ) == p,
{
    lemma_find_from_bounds(s, p, 0);
}

/// `s.split(p).nth(1)`: what follows the first `p`, up to the next one.
pub open spec fn after_first(s: Seq<char>, p: Seq<char>) -> Option<Seq<char>> {
    match find(s, p) {
        None => None,
        Some(i) => {
            let rest = s.skip(i + p.len());
            match find(rest, p) {
                Some(j) => Some(rest.take(j)),
                None => Some(rest),
            }
        },
    }
}

/// Value printed on a registry line, typed `REG_EXPAND_SZ` or `REG_SZ`.
pub open spec fn line_value(line: Seq<char>) -> Option<Seq<char>> {
    if after_first(line, REG_EXPAND_SZ@) is Some {
        after_first(line, REG_EXPAND_SZ@)
    } else {
        after_first(line, REG_SZ@)
    }
}

/// The value of the first line that has one.
pub open spec fn first_value(s: Seq<char>) -> Option<Seq<char>>
    decreases s.len(),
{
    match find(s, seq!['\n']) {
        None => line_value(s),
        Some(k) => if line_value(s.take(k)) is Some {
            line_value(s.take(k))
        } else {
            proof {
                lemma_find_bounds(s, seq!['\n']);
            }
            first_value(s.skip(k + 1))
        },
    }
}

/// What `reg_string` returns.
pub open spec fn reg_value(output: Seq<char>) -> Option<Seq<char>> {
    match first_value(output) {
        None => None,
        Some(v) => if trim(v).len() == 0 {
            None
        } else {
            Some(trim(v))
        },
    }
}

/// `.exe`, in any case, at `i`.
pub open spec fn exe_at(s: Seq<char>, i: int) -> bool {
    0 <= i && i + 4 <= s.len() && lower_seq(s.subrange(i, i + 4)) == seq!['.', 'e', 'x', 'e']
}

pub open spec fn find_exe_from(s: Seq<char>, i: int) -> Option<int>
    decreases s.len() - i,
{
    if i < 0 || i + 4 > s.len() {
        None
    } else if exe_at(s, i) {
        Some(i)
    } else {
        find_exe_from(s, i + 1)
    }
}

/// The program a registry command names: its quoted first word, or, unquoted,
/// everything up to the first `.exe`.
pub open spec fn program_of(command: Seq<char>) -> Option<Seq<char>> {
    let c = trim(command);
    if c.len() > 0 && c[0] == '"' {
        let rest = c.skip(1);
        match find(rest, seq!['"']) {
            Some(j) => Some(rest.take(j)),
            None => Some(rest),
        }
    } else {
        match find_exe_from(c, 0) {
            Some(i) => Some(c.take(i + 4)),
            None => None,
        }
    }
}

/// An executable path RunTerm can start with URL arguments.
pub open spec fn usable_program(p: Seq<char>) -> bool {
    &&& p.len() > 4
    &&& exe_at(p, p.len() - 4)
    &&& !has_any(p, seq!['%', '\0', '\r', '\n'])
}

pub open spec fn browser_program(command: Seq<char>) -> Option<Seq<char>> {
    match program_of(command) {
        Some(p) => if usable_program(p) {
            Some(p)
        } else {
            None
        },
        None => None,
    }
}

/// Executables of Chromium-based browsers, in lower case.
pub open spec fn chromium_names() -> Seq<Seq<char>> {
    seq![
        "msedge.exe"@,
        "chrome.exe"@,
        "chromium.exe"@,
        "brave.exe"@,
        "vivaldi.exe"@,
        "opera.exe"@,
    ]
}

/// Last index of a path separator, `-1` when there is none.
pub open spec fn last_separator(s: Seq<char>) -> int
    decreases s.len(),
{
    if s.len() == 0 {
        -1
    } else if s.last() == '\\' || s.last() == '/' {
        s.len() - 1
    } else {
        last_separator(s.drop_last())
    }
}

/// File name of a Windows path, in lower case.
pub open spec fn file_name(program: Seq<char>) -> Seq<char> {
    lower_seq(program.skip(last_separator(program) + 1))
}

pub open spec fn browser_command(program: Seq<char>, urls: Seq<Seq<char>>) -> Seq<Seq<char>> {
    if chromium_names().contains(file_name(program)) {
        seq![NEW_WINDOW@] + urls
    } else {
        urls
    }
}

/// A copy of `v[lo..hi]`.
fn sub_vec(v: &Vec<char>, lo: usize, hi: usize) -> (r: Vec<char>)
    requires
        lo <= hi <= v.len(),
    ensures
        r@ == v@.subrange(lo as int, hi as int),
{
    let mut r: Vec<char> = Vec::new();
    let mut i = lo;
    while i < hi
        invariant
            lo <= i <= hi <= v.len(),
            r@ == v@.subrange(lo as int, i as int),
        decreases hi - i,
    {
        r.push(v[i]);
        assert(v@.subrange(lo as int, i + 1) =~= r@);
        i += 1;
    }
    r
}

/// Whether `p` occurs in `s` at `i`.
fn occurs_at(s: &Vec<char>, p: &Vec<char>, i: usize) -> (b: bool)
    requires
        i + p.len() <= s.len(),
    ensures
        b == (s@.subrange(i as int, i + p.len()) == p@),
{
    let mut k: usize = 0;
    while k < p.len()
        invariant
            k <= p.len(),
            i + p.len() <= s.len(),
            forall|j: int| 0 <= j < k ==> s@[i + j] == p@[j],
        decreases p.len() - k,
    {
        if s[i + k] != p[k] {
            assert(s@.subrange(i as int, i + p.len())[k as int] != p@[k as int]);
            return false;
        }
        k += 1;
    }
    assert(s@.subrange(i as int, i + p.len()) =~= p@);
    true
}

/// First position where `p` occurs in `s`.
fn find_in(s: &Vec<char>, p: &Vec<char>) -> (r: Option<usize>)
    ensures
        match r {
            Some(i) => find(s@, p@) == Some(i as int),
            None => find(s@, p@) is None,
        },
{
    if p.len() > s.len() {
        return None;
    }
    let last = s.len() - p.len();
    let mut i: usize = 0;
    while i <= last
        invariant
            p.len() <= s.len(),
            last == s.len() - p.len(),
            i <= last,
            find(s@, p@) == find_from(s@, p@, i as int),
        decreases last - i,
    {
        if occurs_at(s, p, i) {
            return Some(i);
        }
        if i == last {
            return None;
        }
        i += 1;
    }
    None
}

/// `line.split(kind).nth(1)`.
fn after_first_exec(line: &Vec<char>, kind: &Vec<char>) -> (r: Option<Vec<char>>)
    ensures
        match r {
            Some(v) => after_first(line@, kind@) == Some(v@),
            None => after_first(line@, kind@) is None,
        },
{
    proof {
        lemma_find_bounds(line@, kind@);
    }
    match find_in(line, kind) {
        None => None,
        Some(i) => {
            assert(find(line@, kind@) == Some(i as int));
            assert(i + kind.len() <= line.len());
            proof {
                let rest = line@.skip(i + kind@.len());
                lemma_find_bounds(rest, kind@);
            }
            let rest = sub_vec(line, i + kind.len(), line.len());
            assert(rest@ =~= line@.skip(i + kind@.len()));
            match find_in(&rest, kind) {
                Some(j) => {
                    let v = sub_vec(&rest, 0, j);
                    assert(v@ =~= rest@.take(j as int));
                    Some(v)
                },
                None => Some(rest),
            }
        },
    }
}

fn line_value_exec(line: &Vec<char>) -> (r: Option<Vec<char>>)
    ensures
        match r {
            Some(v) => line_value(line@) == Some(v@),
            None => line_value(line@) is None,
        },
{
    let expand = chars_of(REG_EXPAND_SZ);
    match after_first_exec(line, &expand) {
        Some(v) => Some(v),
        None => {
            let sz = chars_of(REG_SZ);
            after_first_exec(line, &sz)
        },
    }
}

/// Value of the single entry printed by `reg.exe query … /v <name>` (or `/ve`):
/// a `    <name>    REG_SZ    <value>` line. The entry name is localized
/// (`(Default)`, `(Par défaut)`), its type is not, so the type is the anchor.
pub fn reg_string(output: &str) -> (r: Option<String>)
    ensures
        match r {
            Some(v) => reg_value(output@) == Some(v@),
            None => reg_value(output@) is None,
        },
{
    let all = chars_of(output);
    let newline = vec!['\n'];
    let mut start: usize = 0;
    assert(all@.skip(0) =~= all@);
    while start <= all.len()
        invariant
            start <= all.len(),
            all@ == output@,
            newline@ == seq!['\n'],
            first_value(all@) == first_value(all@.skip(start as int)),
        decreases all.len() - start,
    {
        let rest = sub_vec(&all, start, all.len());
        assert(rest@ =~= all@.skip(start as int));
        proof {
            lemma_find_bounds(rest@, newline@);
        }
        match find_in(&rest, &newline) {
            None => {
                return trimmed_value(line_value_exec(&rest));
            },
            Some(k) => {
                let line = sub_vec(&rest, 0, k);
                assert(line@ =~= rest@.take(k as int));
                let v = line_value_exec(&line);
                if v.is_some() {
                    return trimmed_value(v);
                }
                assert(rest@.skip(k + 1) =~= all@.skip(start + k + 1));
                start = start + k + 1;
            },
        }
    }
    None
}

/// The trimmed value, `None` when nothing is left.
fn trimmed_value(v: Option<Vec<char>>) -> (r: Option<String>)
    ensures
        match v {
            None => r is None,
            Some(x) => if trim(x@).len() == 0 {
                r is None
            } else {
                r matches Some(s) && s@ == trim(x@)
            },
        },
{
    match v {
        None => None,
        Some(x) => {
            let (lo, hi) = trim_bounds(&x);
            if lo == hi {
                None
            } else {
                Some(string_of(&x, lo, hi))
            }
        },
    }
}


/// Whether `v[i..i + 4]` is `.exe` in any case.
fn exe_at_exec(v: &Vec<char>, i: usize) -> (b: bool)
    requires
        i + 4 <= v.len(),
    ensures
        b == exe_at(v@, i as int),
{
    let r = lower_char(v[i]) == '.' && lower_char(v[i + 1]) == 'e' && lower_char(v[i + 2]) == 'x'
        && lower_char(v[i + 3]) == 'e';
    assert(lower_seq(v@.subrange(i as int, i + 4)) =~= seq![
        ascii_lower(v@[i as int]),
        ascii_lower(v@[i + 1]),
        ascii_lower(v@[i + 2]),
        ascii_lower(v@[i + 3]),
    ]);
    r
}

proof fn lemma_find_exe_bounds(s: Seq<char>, i: int)
    ensures
        find_exe_from(s, i) matches Some(k) ==> 0 <= k && k + 4 <= s.len(),
    decreases s.len() - i,
{
    if !(i < 0 || i + 4 > s.len()) && !exe_at(s, i) {
        lemma_find_exe_bounds(s, i + 1);
    }
}

/// First position of `.exe`, in any case.
fn find_exe(c: &Vec<char>) -> (r: Option<usize>)
    ensures
        match r {
            Some(i) => find_exe_from(c@, 0) == Some(i as int) && i + 4 <= c.len(),
            None => find_exe_from(c@, 0) is None,
        },
{
    proof {
        lemma_find_exe_bounds(c@, 0);
    }
    if c.len() < 4 {
        return None;
    }
    let last = c.len() - 4;
    let mut i: usize = 0;
    while i <= last
        invariant
            c.len() >= 4,
            last == c.len() - 4,
            i <= last,
            find_exe_from(c@, 0) == find_exe_from(c@, i as int),
        decreases last - i,
    {
        if exe_at_exec(c, i) {
            return Some(i);
        }
        if i == last {
            assert(find_exe_from(c@, i + 1) is None);
            return None;
        }
        i += 1;
    }
    None
}

/// Program of a registry `shell\open\command` (a browser's, or the `vscode:`
/// handler naming `Code.exe`), e.g. `"C:\…\chrome.exe"
/// --single-argument %1` or `C:\…\firefox.exe -osint -url "%1"`. RunTerm
/// passes the URLs to that program itself instead of filling the command in:
/// browsers open one tab per URL argument, in a single window. `None` when
/// the value names no executable, for instance a Store application.
pub fn browser_executable(command: &str) -> (r: Option<String>)
    ensures
        match r {
            Some(p) => browser_program(command@) == Some(p@),
            None => browser_program(command@) is None,
        },
{
    let all = chars_of(command);
    let (lo, hi) = trim_bounds(&all);
    let c = sub_vec(&all, lo, hi);
    assert(c@ =~= trim(command@));
    let program: Vec<char> = if c.len() > 0 && c[0] == '"' {
        let rest = sub_vec(&c, 1, c.len());
        assert(rest@ =~= c@.skip(1));
        let quote = vec!['"'];
        assert(quote@ =~= seq!['"']);
        proof {
            lemma_find_bounds(rest@, quote@);
        }
        match find_in(&rest, &quote) {
            Some(j) => {
                let p = sub_vec(&rest, 0, j);
                assert(p@ =~= rest@.take(j as int));
                assert(program_of(command@) == Some(p@));
                p
            },
            None => {
                assert(program_of(command@) == Some(rest@));
                rest
            },
        }
    } else {
        // Unquoted; such a path may still contain spaces, so it ends at `.exe`.
        match find_exe(&c) {
            None => {
                return None;
            },
            Some(i) => {
                let p = sub_vec(&c, 0, i + 4);
                assert(p@ =~= c@.take(i + 4));
                assert(program_of(command@) == Some(p@));
                p
            },
        }
    };
    assert(program_of(command@) == Some(program@));
    let n = program.len();
    let usable = n > 4 && exe_at_exec(&program, n - 4) && !has_forbidden(&program);
    if usable {
        Some(string_of(&program, 0, n))
    } else {
        None
    }
}

/// Whether `v` holds `%`, NUL, CR or LF.
fn has_forbidden(v: &Vec<char>) -> (b: bool)
    ensures
        b == has_any(v@, seq!['%', '\0', '\r', '\n']),
{
    let mut i: usize = 0;
    while i < v.len()
        invariant
            i <= v.len(),
            forall|j: int| 0 <= j < i ==> !seq!['%', '\0', '\r', '\n'].contains(#[trigger] v@[j]),
        decreases v.len() - i,
    {
        let c = v[i];
        if c == '%' || c == '\0' || c == '\r' || c == '\n' {
            assert(seq!['%', '\0', '\r', '\n'][0] == '%');
            assert(seq!['%', '\0', '\r', '\n'][1] == '\0');
            assert(seq!['%', '\0', '\r', '\n'][2] == '\r');
            assert(seq!['%', '\0', '\r', '\n'][3] == '\n');
            assert(seq!['%', '\0', '\r', '\n'].contains(v@[i as int]));
            return true;
        }
        assert(!seq!['%', '\0', '\r', '\n'].contains(c));
        i += 1;
    }
    false
}

/// Command line opening `urls` in a **new** window of `program`, the browser
/// [`browser_executable`] returned. Chromium-based browsers take
/// `--new-window`, and still gather every URL of one command line into that
/// single window, so projects launched together share it instead of landing in
/// the window the user already had open. Other browsers get the URLs alone:
/// none of their flags both forces a window and keeps the URLs together.
pub fn browser_args(program: &str, urls: &[String]) -> (args: Vec<String>)
    ensures
        texts_of(args@) == browser_command(program@, texts_of(urls@)),
{
    let v = chars_of(program);
    let mut k: usize = v.len();
    assert(v@.take(v.len() as int) =~= v@);
    while k > 0 && !(v[k - 1] == '\\' || v[k - 1] == '/')
        invariant
            k <= v.len(),
            v@ == program@,
            last_separator(v@) == last_separator(v@.take(k as int)),
        decreases k,
    {
        assert(v@.take(k as int).drop_last() =~= v@.take(k - 1));
        k -= 1;
    }
    proof {
        assert(v@.take(v.len() as int) =~= v@);
        if k > 0 {
            assert(v@.take(k as int).last() == v@[k - 1]);
        } else {
            assert(v@.take(0) =~= Seq::<char>::empty());
        }
    }
    let mut file = String::new();
    let mut i = k;
    while i < v.len()
        invariant
            k <= i <= v.len(),
            file@ == lower_seq(v@.subrange(k as int, i as int)),
        decreases v.len() - i,
    {
        push_char(&mut file, lower_char(v[i]));
        assert(lower_seq(v@.subrange(k as int, i + 1)) =~= file@);
        i += 1;
    }
    assert(v@.subrange(k as int, v.len() as int) =~= v@.skip(k as int));
    let names = ["msedge.exe", "chrome.exe", "chromium.exe", "brave.exe", "vivaldi.exe", "opera.exe"];
    proof {
        assert forall|x: int| 0 <= x < 6 implies names@[x]@ == chromium_names()[x] by {
            if x == 0 {
            } else if x == 1 {
            } else if x == 2 {
            } else if x == 3 {
            } else if x == 4 {
            } else {
            }
        }
    }
    let mut chromium = false;
    let mut j: usize = 0;
    while j < 6
        invariant
            j <= 6,
            names@.len() == 6,
            forall|x: int| 0 <= x < 6 ==> names@[x]@ == chromium_names()[x],
            chromium == exists|x: int| 0 <= x < j && chromium_names()[x] == file@,
        decreases 6 - j,
    {
        let same = str_eq(names[j], file.as_str());
        assert(names@[j as int]@ == chromium_names()[j as int]);
        if same {
            assert(chromium_names()[j as int] == file@);
            chromium = true;
        }
        proof {
            if !same {
                assert(chromium_names()[j as int] != file@);
            }
        }
        j += 1;
    }
    proof {
        if chromium {
            let x = choose|x: int| 0 <= x < 6 && chromium_names()[x] == file@;
            assert(chromium_names().contains(file@));
        } else {
            assert forall|x: int| 0 <= x < 6 implies chromium_names()[x] != file@ by {}
        }
    }
    let mut args: Vec<String> = Vec::new();
    if chromium {
        args.push(string_from(NEW_WINDOW));
    }
    let ghost head = texts_of(args@);
    let mut u: usize = 0;
    while u < urls.len()
        invariant
            u <= urls.len(),
            texts_of(args@) == head + texts_of(urls@).take(u as int),
        decreases urls.len() - u,
    {
        let ghost before = args@;
        args.push(urls[u].clone());
        assert(texts_of(args@) =~= texts_of(before).push(urls@[u as int]@));
        assert(texts_of(urls@).take(u + 1) =~= texts_of(urls@).take(u as int).push(urls@[u as int]@));
        assert(texts_of(args@) =~= head + texts_of(urls@).take(u + 1));
        u += 1;
    }
    assert(texts_of(urls@).take(u as int) =~= texts_of(urls@));
    args
}

} // verus!
