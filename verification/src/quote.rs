//! Quoting for Bash and PowerShell, Windows paths of WSL folders and URI
//! percent-encoding.
use vstd::prelude::*;
use crate::text::{
    chars_of, concat_map, is_alphanumeric_byte, is_ascii_alphanumeric_byte,
    lemma_concat_map_step, push_char, push_str,
};

verus! {

/// A character inside a Bash single-quoted literal: `'` closes, escapes and reopens.
pub open spec fn shell_piece(c: char) -> Seq<char> {
    if c == '\'' {
        seq!['\'', '\\', '\'', '\'']
    } else {
        seq![c]
    }
}

/// `value` as one Bash word that the shell reads back unchanged.
pub open spec fn shell_quoted(value: Seq<char>) -> Seq<char> {
    seq!['\''] + concat_map(value, |c: char| shell_piece(c)) + seq!['\'']
}

/// Quotes PowerShell also reads as a single quote.
pub open spec fn is_powershell_quote(c: char) -> bool {
    c == '\'' || c == '\u{2018}' || c == '\u{2019}' || c == '\u{201a}' || c == '\u{201b}'
}

pub open spec fn powershell_piece(c: char) -> Seq<char> {
    if is_powershell_quote(c) {
        seq![c, c]
    } else {
        seq![c]
    }
}

/// `value` as a PowerShell single-quoted literal.
pub open spec fn powershell_quoted(value: Seq<char>) -> Seq<char> {
    seq!['\''] + concat_map(value, |c: char| powershell_piece(c)) + seq!['\'']
}

/// `\\wsl.localhost\`.
pub open spec fn wsl_prefix() -> Seq<char> {
    seq!['\\', '\\', 'w', 's', 'l', '.', 'l', 'o', 'c', 'a', 'l', 'h', 'o', 's', 't', '\\']
}

pub open spec fn backslash_piece(c: char) -> Seq<char> {
    if c == '/' {
        seq!['\\']
    } else {
        seq![c]
    }
}

/// Windows path of the WSL folder `path` in `distribution`.
pub open spec fn wsl_path(distribution: Seq<char>, path: Seq<char>) -> Seq<char> {
    wsl_prefix() + distribution + concat_map(path, |c: char| backslash_piece(c))
}

/// Upper-case hexadecimal digit of `d`.
pub open spec fn hex_digit(d: nat) -> char {
    if d < 10 {
        (('0' as nat) + d) as char
    } else {
        (('A' as nat) + d - 10) as char
    }
}

/// URI unreserved characters besides letters and digits.
pub open spec fn unreserved_mark(b: u8) -> bool {
    b == 0x2d || b == 0x2e || b == 0x5f || b == 0x7e
}

pub open spec fn percent_piece(b: u8, keep: Seq<u8>) -> Seq<char> {
    if is_ascii_alphanumeric_byte(b) || unreserved_mark(b) || keep.contains(b) {
        seq![b as char]
    } else {
        seq!['%', hex_digit(b as nat / 16), hex_digit(b as nat % 16)]
    }
}

/// Percent-encoding of the bytes of a string, but those of `keep`.
pub open spec fn percent_encoded(value: Seq<char>, keep: Seq<char>) -> Seq<char> {
    concat_map(
        vstd::utf8::encode_utf8(value),
        |b: u8| percent_piece(b, vstd::utf8::encode_utf8(keep)),
    )
}

pub fn shell_quote(value: &str) -> (q: String)
    ensures
        q@ == shell_quoted(value@),
{
    let v = chars_of(value);
    let mut q = String::new();
    push_char(&mut q, '\'');
    let mut i: usize = 0;
    while i < v.len()
        invariant
            i <= v.len(),
            v@ == value@,
            q@ == seq!['\''] + concat_map(v@.take(i as int), |c: char| shell_piece(c)),
        decreases v.len() - i,
    {
        proof {
            lemma_concat_map_step(v@, |c: char| shell_piece(c), i as int);
        }
        if v[i] == '\'' {
            push_char(&mut q, '\'');
            push_char(&mut q, '\\');
            push_char(&mut q, '\'');
            push_char(&mut q, '\'');
        } else {
            push_char(&mut q, v[i]);
        }
        i += 1;
    }
    assert(v@.take(v.len() as int) =~= v@);
    push_char(&mut q, '\'');
    q
}

/// PowerShell single-quoted literal. PowerShell also ends such literals on
/// typographic single quotes, so each of them is doubled too.
pub fn powershell_quote(value: &str) -> (q: String)
    ensures
        q@ == powershell_quoted(value@),
{
    let v = chars_of(value);
    let mut q = String::new();
    push_char(&mut q, '\'');
    let mut i: usize = 0;
    while i < v.len()
        invariant
            i <= v.len(),
            v@ == value@,
            q@ == seq!['\''] + concat_map(v@.take(i as int), |c: char| powershell_piece(c)),
        decreases v.len() - i,
    {
        proof {
            lemma_concat_map_step(v@, |c: char| powershell_piece(c), i as int);
        }
        let c = v[i];
        if c == '\'' || c == '\u{2018}' || c == '\u{2019}' || c == '\u{201a}' || c == '\u{201b}' {
            push_char(&mut q, c);
        }
        push_char(&mut q, c);
        i += 1;
    }
    assert(v@.take(v.len() as int) =~= v@);
    push_char(&mut q, '\'');
    q
}

/// Windows path of a WSL folder, e.g. `\\wsl.localhost\Ubuntu\home\me`.
pub fn wsl_windows_path(distribution: &str, path: &str) -> (p: String)
    ensures
        p@ == wsl_path(distribution@, path@),
{
    let mut p = String::new();
    push_str(&mut p, "\\\\wsl.localhost\\");
    proof {
        reveal_strlit("\\\\wsl.localhost\\");
        assert(p@ =~= wsl_prefix());
    }
    push_str(&mut p, distribution);
    let v = chars_of(path);
    let mut i: usize = 0;
    while i < v.len()
        invariant
            i <= v.len(),
            v@ == path@,
            p@ == wsl_prefix() + distribution@ + concat_map(
                v@.take(i as int),
                |c: char| backslash_piece(c),
            ),
        decreases v.len() - i,
    {
        proof {
            lemma_concat_map_step(v@, |c: char| backslash_piece(c), i as int);
        }
        if v[i] == '/' {
            push_char(&mut p, '\\');
        } else {
            push_char(&mut p, v[i]);
        }
        i += 1;
    }
    assert(v@.take(v.len() as int) =~= v@);
    p
}

fn hex_char(d: u8) -> (c: char)
    requires
        d < 16,
    ensures
        c == hex_digit(d as nat),
{
    if d < 10 {
        (0x30u8 + d) as char
    } else {
        (0x41u8 + d - 10) as char
    }
}

/// Whether `s` holds the byte `b`.
fn has_byte(s: &[u8], b: u8) -> (r: bool)
    ensures
        r == s@.contains(b),
{
    let mut i: usize = 0;
    while i < s.len()
        invariant
            i <= s.len(),
            forall|j: int| 0 <= j < i ==> s@[j] != b,
        decreases s.len() - i,
    {
        if s[i] == b {
            return true;
        }
        i += 1;
    }
    false
}

/// Percent-encodes every byte of `value` but the URI unreserved characters
/// and `keep`, so VS Code reads it back unchanged (`@` or `:` in a host would
/// otherwise split the authority).
pub fn percent_encode(value: &str, keep: &str) -> (out: String)
    ensures
        out@ == percent_encoded(value@, keep@),
{
    let bytes = value.as_bytes();
    let kept = keep.as_bytes();
    let ghost f = |b: u8| percent_piece(b, vstd::utf8::encode_utf8(keep@));
    let mut out = String::new();
    let mut i: usize = 0;
    while i < bytes.len()
        invariant
            i <= bytes.len(),
            bytes@ == vstd::utf8::encode_utf8(value@),
            kept@ == vstd::utf8::encode_utf8(keep@),
            f == (|b: u8| percent_piece(b, vstd::utf8::encode_utf8(keep@))),
            out@ == concat_map(bytes@.take(i as int), f),
        decreases bytes.len() - i,
    {
        proof {
            lemma_concat_map_step(bytes@, f, i as int);
        }
        let b = bytes[i];
        if is_alphanumeric_byte(b) || b == 0x2d || b == 0x2e || b == 0x5f || b == 0x7e || has_byte(
            kept,
            b,
        ) {
            push_char(&mut out, b as char);
        } else {
            push_char(&mut out, '%');
            push_char(&mut out, hex_char(b / 16));
            push_char(&mut out, hex_char(b % 16));
        }
        i += 1;
    }
    assert(bytes@.take(bytes.len() as int) =~= bytes@);
    out
}

} // verus!
