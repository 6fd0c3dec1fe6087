//! Standard base64 and the UTF-16LE text PowerShell's `-EncodedCommand` reads.
use vstd::prelude::*;
use crate::text::{chars_of, concat_map, lemma_concat_map_step, push_char};

verus! {

/// Digit `v` (below 64) of the standard base64 alphabet.
pub open spec fn base64_digit(v: nat) -> char {
    if v < 26 {
        (('A' as nat) + v) as char
    } else if v < 52 {
        (('a' as nat) + v - 26) as char
    } else if v < 62 {
        (('0' as nat) + v - 52) as char
    } else if v == 62 {
        '+'
    } else {
        '/'
    }
}

/// The 24-bit number a chunk of one to three bytes stands for, missing
/// bytes being zero.
pub open spec fn chunk_value(c: Seq<u8>) -> nat {
    (c[0] as nat) * 65536 + (if c.len() > 1 {
        (c[1] as nat) * 256
    } else {
        0
    }) + (if c.len() > 2 {
        c[2] as nat
    } else {
        0
    })
}

/// Four characters for a chunk of one to three bytes, `=` padding the
/// digits a shorter chunk lacks.
pub open spec fn base64_chunk(c: Seq<u8>) -> Seq<char> {
    let n = chunk_value(c);
    seq![
        base64_digit(n / 262144 % 64),
        base64_digit(n / 4096 % 64),
        if c.len() > 1 {
            base64_digit(n / 64 % 64)
        } else {
            '='
        },
        if c.len() > 2 {
            base64_digit(n % 64)
        } else {
            '='
        },
    ]
}

/// Standard base64 of `b`, padded.
pub open spec fn base64(b: Seq<u8>) -> Seq<char>
    decreases b.len(),
{
    if b.len() == 0 {
        Seq::empty()
    } else if b.len() <= 3 {
        base64_chunk(b)
    } else {
        base64_chunk(b.take(3)) + base64(b.skip(3))
    }
}

/// UTF-16 code units of a character.
pub open spec fn utf16_units(c: char) -> Seq<u16> {
    let v = c as u32;
    if v < 0x10000 {
        seq![v as u16]
    } else {
        let w = (v - 0x10000) as nat;
        seq![(0xd800 + w / 1024) as u16, (0xdc00 + w % 1024) as u16]
    }
}

/// Little-endian bytes of a code unit.
pub open spec fn le_bytes(u: u16) -> Seq<u8> {
    seq![(u % 256) as u8, (u / 256) as u8]
}

/// UTF-16LE bytes of a character.
pub open spec fn utf16le_char(c: char) -> Seq<u8> {
    concat_map(utf16_units(c), |u: u16| le_bytes(u))
}

/// UTF-16LE bytes of a text.
pub open spec fn utf16le(s: Seq<char>) -> Seq<u8> {
    concat_map(s, |c: char| utf16le_char(c))
}

fn digit_of(v: u32) -> (c: char)
    requires
        v < 64,
    ensures
        c == base64_digit(v as nat),
{
    if v < 26 {
        ((0x41 + v) as u8) as char
    } else if v < 52 {
        ((0x61 + v - 26) as u8) as char
    } else if v < 62 {
        ((0x30 + v - 52) as u8) as char
    } else if v == 62 {
        '+'
    } else {
        '/'
    }
}

/// Appends the four characters of the chunk `bytes[i..i + len]`.
fn push_chunk(out: &mut String, bytes: &[u8], i: usize, len: usize)
    requires
        1 <= len <= 3,
        i + len <= bytes.len(),
    ensures
        final(out)@ == old(out)@ + base64_chunk(bytes@.subrange(i as int, i + len)),
{
    let ghost chunk = bytes@.subrange(i as int, i + len);
    let b0 = bytes[i] as u32;
    let b1: u32 = if len > 1 {
        bytes[i + 1] as u32
    } else {
        0
    };
    let b2: u32 = if len > 2 {
        bytes[i + 2] as u32
    } else {
        0
    };
    let n: u32 = b0 * 65536 + b1 * 256 + b2;
    assert(n == chunk_value(chunk));
    let c0 = digit_of(n / 262144 % 64);
    let c1 = digit_of(n / 4096 % 64);
    let c2 = if len > 1 {
        digit_of(n / 64 % 64)
    } else {
        '='
    };
    let c3 = if len > 2 {
        digit_of(n % 64)
    } else {
        '='
    };
    push_char(out, c0);
    push_char(out, c1);
    push_char(out, c2);
    push_char(out, c3);
    assert(seq![c0, c1, c2, c3] =~= base64_chunk(chunk));
    assert(final(out)@ =~= old(out)@ + seq![c0, c1, c2, c3]);
}

/// Standard base64. Its alphabet has no `;`, which Windows Terminal would read
/// as a command separator, and nothing a shell interprets.
pub fn base64_encode(bytes: &[u8]) -> (out: String)
    ensures
        out@ == base64(bytes@),
{
    let mut out = String::new();
    let mut i: usize = 0;
    assert(bytes@.skip(0) =~= bytes@);
    while i < bytes.len()
        invariant
            i <= bytes.len(),
            base64(bytes@) == out@ + base64(bytes@.skip(i as int)),
        decreases bytes.len() - i,
    {
        let len: usize = if bytes.len() - i >= 3 {
            3
        } else {
            bytes.len() - i
        };
        let ghost rest = bytes@.skip(i as int);
        let ghost before = out@;
        push_chunk(&mut out, bytes, i, len);
        proof {
            if rest.len() <= 3 {
                assert(rest =~= bytes@.subrange(i as int, i + len));
                assert(bytes@.skip(i + len) =~= Seq::<u8>::empty());
            } else {
                assert(rest.take(3) =~= bytes@.subrange(i as int, i + len));
                assert(rest.skip(3) =~= bytes@.skip(i + len));
            }
            assert(out@ + base64(bytes@.skip(i + len)) =~= before + base64(rest));
        }
        i += len;
    }
    assert(bytes@.skip(i as int) =~= Seq::<u8>::empty());
    out
}

/// UTF-16LE bytes of `s`, as `encode_utf16` then `to_le_bytes`.
pub fn utf16le_bytes(s: &str) -> (out: Vec<u8>)
    ensures
        out@ == utf16le(s@),
{
    let v = chars_of(s);
    let mut out: Vec<u8> = Vec::new();
    let mut i: usize = 0;
    while i < v.len()
        invariant
            i <= v.len(),
            v@ == s@,
            out@ == concat_map(v@.take(i as int), |c: char| utf16le_char(c)),
        decreases v.len() - i,
    {
        proof {
            lemma_concat_map_step(v@, |c: char| utf16le_char(c), i as int);
        }
        let c = v[i];
        let u = c as u32;
        proof {
            vstd::utf8::char_is_scalar(c);
        }
        let ghost before = out@;
        if u < 0x10000 {
            out.push((u % 256) as u8);
            out.push((u / 256) as u8);
            proof {
                let units = utf16_units(c);
                assert(units =~= seq![u as u16]);
                crate::text::lemma_concat_map_single(u as u16, |x: u16| le_bytes(x));
            }
        } else {
            let w = u - 0x10000;
            let hi: u32 = 0xd800 + w / 1024;
            let lo: u32 = 0xdc00 + w % 1024;
            out.push((hi % 256) as u8);
            out.push((hi / 256) as u8);
            out.push((lo % 256) as u8);
            out.push((lo / 256) as u8);
            proof {
                let units = utf16_units(c);
                assert(units =~= seq![hi as u16, lo as u16]);
                assert(seq![hi as u16, lo as u16].drop_last() =~= seq![hi as u16]);
                crate::text::lemma_concat_map_single(hi as u16, |x: u16| le_bytes(x));
            }
        }
        assert(out@ =~= before + utf16le_char(c));
        i += 1;
    }
    assert(v@.take(v.len() as int) =~= v@);
    out
}

/// Value for `-EncodedCommand`: base64 of the UTF-16LE script.
pub fn encode_powershell(script: &str) -> (e: String)
    ensures
        e@ == base64(utf16le(script@)),
{
    let bytes = utf16le_bytes(script);
    base64_encode(bytes.as_slice())
}

} // verus!
