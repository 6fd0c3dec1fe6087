//! Reading what Windows programs print: `wsl.exe` writes UTF-16, Linux
//! programs UTF-8.
use vstd::prelude::*;
use vstd::utf8::{decode_utf8, valid_utf8};
use crate::strmap::{
    compare_bytes, key_lt, lemma_bytes_lt_total,
    lemma_bytes_lt_transitive,
};
use crate::text::{
    chars_of, string_from, string_of, texts_of, trim, trim_start_char, trim_start_str,
    trim_str,
};

verus! {

/// What `String::from_utf8_lossy` makes of `bytes`: the text they encode, each
/// invalid sequence replaced by U+FFFD.
pub uninterp spec fn utf8_lossy(bytes: Seq<u8>) -> Seq<char>;

pub open spec fn is_high_surrogate(u: u16) -> bool {
    0xD800 <= u <= 0xDBFF
}

pub open spec fn is_low_surrogate(u: u16) -> bool {
    0xDC00 <= u <= 0xDFFF
}

/// UTF-16 decoded, each unpaired surrogate becoming U+FFFD.
pub open spec fn utf16_decoded(units: Seq<u16>) -> Seq<char>
    decreases units.len(),
{
    if units.len() == 0 {
        Seq::empty()
    } else if units.len() >= 2 && is_high_surrogate(units[0]) && is_low_surrogate(units[1]) {
        seq![
            ((0x10000 + (units[0] - 0xD800) * 0x400 + (units[1] - 0xDC00)) as u32) as char,
        ] + utf16_decoded(units.subrange(2, units.len() as int))
    } else if is_high_surrogate(units[0]) || is_low_surrogate(units[0]) {
        seq!['\u{FFFD}'] + utf16_decoded(units.subrange(1, units.len() as int))
    } else {
        seq![(units[0] as u32) as char] + utf16_decoded(units.subrange(1, units.len() as int))
    }
}

/// Little-endian 16-bit units of `bytes`, an odd last byte left out.
pub open spec fn le_units(bytes: Seq<u8>) -> Seq<u16> {
    Seq::new(bytes.len() / 2, |i: int| (bytes[2 * i] + 256 * bytes[2 * i + 1]) as u16)
}

/// The byte order mark of UTF-16LE.
pub open spec fn has_bom(bytes: Seq<u8>) -> bool {
    bytes.len() >= 2 && bytes[0] == 0xff && bytes[1] == 0xfe
}

/// A zero among the second bytes of the first twenty pairs: ASCII in UTF-16LE.
pub open spec fn zero_high_byte(bytes: Seq<u8>) -> bool {
    exists|k: int| 0 <= k < 20 && 2 * k + 1 < bytes.len() && #[trigger] bytes[2 * k + 1] == 0
}

/// Whether `bytes` are read as UTF-16LE rather than UTF-8.
pub open spec fn looks_utf16(bytes: Seq<u8>) -> bool {
    has_bom(bytes) || zero_high_byte(bytes)
}

/// The text of a program's output.
pub open spec fn decoded(bytes: Seq<u8>) -> Seq<char> {
    if looks_utf16(bytes) {
        utf16_decoded(
            le_units(
                if has_bom(bytes) {
                    bytes.subrange(2, bytes.len() as int)
                } else {
                    bytes
                },
            ),
        )
    } else {
        utf8_lossy(bytes)
    }
}

/// `String::from_utf16_lossy`: the units decoded, unpaired surrogates replaced.
#[verifier::external_body]
fn utf16_lossy(units: &[u16]) -> (s: String)
    ensures
        s@ == utf16_decoded(units@),
{
    String::from_utf16_lossy(units)
}

/// `String::from_utf8_lossy`: its result is named `utf8_lossy`, and valid
/// UTF-8 is decoded as it is; how invalid sequences are replaced is left
/// unsaid.
#[verifier::external_body]
fn utf8_lossy_string(bytes: &[u8]) -> (s: String)
    ensures
        s@ == utf8_lossy(bytes@),
        valid_utf8(bytes@) ==> s@ == decode_utf8(bytes@),
{
    String::from_utf8_lossy(bytes).into_owned()
}

/// Whether the first twenty pairs of `bytes` hold a zero second byte.
fn has_zero_high_byte(bytes: &[u8]) -> (b: bool)
    ensures
        b == zero_high_byte(bytes@),
{
    let mut k: usize = 0;
    while k < 20 && 2 * k + 1 < bytes.len()
        invariant
            k <= 20,
            bytes@.len() == bytes.len(),
            forall|j: int| 0 <= j < k && 2 * j + 1 < bytes.len() ==> #[trigger] bytes@[2 * j + 1] != 0,
        decreases 20 - k,
    {
        if bytes[2 * k + 1] == 0 {
            assert(bytes@[2 * (k as int) + 1] == 0);
            return true;
        }
        k += 1;
    }
    assert forall|j: int| 0 <= j < 20 && 2 * j + 1 < bytes.len() implies #[trigger] bytes@[2 * j + 1]
        != 0 by {
        if j >= k {
            assert(2 * j + 1 >= 2 * k + 1);
        }
    }
    false
}

/// Text printed by a Windows or Linux program: UTF-16LE when it starts with a
/// byte order mark or looks like ASCII in UTF-16, UTF-8 otherwise.
pub fn decode(bytes: &[u8]) -> (s: String)
    ensures
        s@ == decoded(bytes@),
        !looks_utf16(bytes@) && valid_utf8(bytes@) ==> s@ == decode_utf8(bytes@),
{
    let bom = bytes.len() >= 2 && bytes[0] == 0xff && bytes[1] == 0xfe;
    assert(bom == has_bom(bytes@));
    if bom || has_zero_high_byte(bytes) {
        let skip: usize = if bom {
            2
        } else {
            0
        };
        let ghost rest = bytes@.subrange(skip as int, bytes@.len() as int);
        let mut units: Vec<u16> = Vec::new();
        let mut i: usize = skip;
        while bytes.len() - i >= 2
            invariant
                skip <= i <= bytes.len(),
                (i - skip) % 2 == 0,
                rest == bytes@.subrange(skip as int, bytes@.len() as int),
                units@ =~= le_units(rest).take(((i - skip) / 2) as int),
            decreases bytes.len() - i,
        {
            let unit: u16 = bytes[i] as u16 + 256 * (bytes[i + 1] as u16);
            units.push(unit);
            proof {
                let k = (i - skip) / 2;
                assert(le_units(rest)[k as int] == unit);
            }
            i += 2;
        }
        assert(units@ =~= le_units(rest));
        assert(!bom ==> rest =~= bytes@);
        utf16_lossy(units.as_slice())
    } else {
        utf8_lossy_string(bytes)
    }
}

/// A line without the `\r` of a `\r\n` ending.
pub open spec fn strip_cr(line: Seq<char>) -> Seq<char> {
    if line.len() > 0 && line.last() == '\r' {
        line.drop_last()
    } else {
        line
    }
}

/// The lines of `current` followed by `s`.
pub open spec fn lines_from(s: Seq<char>, current: Seq<char>) -> Seq<Seq<char>>
    decreases s.len(),
{
    if s.len() == 0 {
        if current.len() == 0 {
            Seq::empty()
        } else {
            seq![current]
        }
    } else if s[0] == '\n' {
        seq![strip_cr(current)] + lines_from(s.drop_first(), Seq::empty())
    } else {
        lines_from(s.drop_first(), current.push(s[0]))
    }
}

/// `str::lines`: split at each `\n`, a `\r` before it dropped, with no empty
/// line after a final `\n`.
pub open spec fn lines(s: Seq<char>) -> Seq<Seq<char>> {
    lines_from(s, Seq::empty())
}

/// The lines of `s`, as `str::lines` gives them.
pub fn lines_of(s: &str) -> (v: Vec<String>)
    ensures
        texts_of(v@) == lines(s@),
{
    let chars = chars_of(s);
    let mut out: Vec<String> = Vec::new();
    let mut current: Vec<char> = Vec::new();
    let mut i: usize = 0;
    assert(chars@.skip(0) =~= chars@);
    assert(texts_of(out@) =~= Seq::<Seq<char>>::empty());
    while i < chars.len()
        invariant
            i <= chars.len(),
            chars@ == s@,
            lines(s@) == texts_of(out@) + lines_from(chars@.skip(i as int), current@),
        decreases chars.len() - i,
    {
        let ghost rest = chars@.skip(i as int);
        assert(rest[0] == chars@[i as int]);
        assert(rest.drop_first() =~= chars@.skip(i + 1));
        if chars[i] == '\n' {
            let n = current.len();
            let end: usize = if n > 0 && current[n - 1] == '\r' {
                n - 1
            } else {
                n
            };
            let line = string_of(&current, 0, end);
            assert(line@ =~= strip_cr(current@));
            let ghost before = texts_of(out@);
            out.push(line);
            assert(texts_of(out@) =~= before + seq![strip_cr(current@)]);
            current = Vec::new();
            assert(current@ =~= Seq::<char>::empty());
        } else {
            current.push(chars[i]);
        }
        i += 1;
    }
    if current.len() > 0 {
        let line = string_of(&current, 0, current.len());
        assert(line@ =~= current@);
        let ghost before = texts_of(out@);
        out.push(line);
        assert(texts_of(out@) =~= before + seq![current@]);
    } else {
        assert(texts_of(out@) =~= texts_of(out@) + Seq::<Seq<char>>::empty());
    }
    out
}

/// A distribution name as `wsl --list --quiet` prints it: trimmed, without
/// the byte order marks that may lead it.
pub open spec fn distribution_name(line: Seq<char>) -> Seq<char> {
    trim_start_char(trim(line), '\u{FEFF}')
}

pub open spec fn not_empty(s: Seq<char>) -> bool {
    s.len() > 0
}

/// The installed distributions listed in `output`, in order.
pub open spec fn distribution_list(output: Seq<char>) -> Seq<Seq<char>> {
    lines(output).map_values(|l: Seq<char>| distribution_name(l)).filter(|n: Seq<char>| not_empty(n))
}

/// The distributions `wsl.exe --list --quiet` printed, the default one first.
pub fn distributions(output: &str) -> (v: Vec<String>)
    ensures
        texts_of(v@) == distribution_list(output@),
{
    let all = lines_of(output);
    let ghost names = texts_of(all@).map_values(|l: Seq<char>| distribution_name(l));
    let mut out: Vec<String> = Vec::new();
    let mut i: usize = 0;
    while i < all.len()
        invariant
            i <= all.len(),
            texts_of(all@) == lines(output@),
            names == texts_of(all@).map_values(|l: Seq<char>| distribution_name(l)),
            texts_of(out@) == names.take(i as int).filter(|n: Seq<char>| not_empty(n)),
        decreases all.len() - i,
    {
        let trimmed = trim_str(all[i].as_str());
        let name = trim_start_str(trimmed.as_str(), '\u{FEFF}');
        assert(name@ == names[i as int]);
        assert(names.take(i + 1).drop_last() =~= names.take(i as int));
        proof {
            reveal(Seq::filter);
        }
        let ghost before = texts_of(out@);
        if !name.as_str().is_empty() {
            assert(name@.len() > 0);
            out.push(name);
            assert(texts_of(out@) =~= before.push(names[i as int]));
        } else {
            assert(name@.len() == 0);
        }
        i += 1;
    }
    assert(names.take(i as int) =~= names);
    out
}

/// What `str::to_lowercase` makes of `s`: each character replaced by its
/// Unicode lowercase mapping.
pub uninterp spec fn lowercase(s: Seq<char>) -> Seq<char>;

/// `str::to_lowercase`: its result is named `lowercase`, a function of the
/// text alone; the Unicode mapping itself is left unsaid.
#[verifier::external_body]
fn to_lowercase(s: &str) -> (l: String)
    ensures
        l@ == lowercase(s@),
{
    s.to_lowercase()
}

/// The key each name is sorted by.
pub open spec fn lowercase_keys(names: Seq<Seq<char>>) -> Seq<Seq<char>> {
    names.map_values(|n: Seq<char>| lowercase(n))
}

/// Item `a` goes before item `b`: its key is smaller, or the same with an
/// earlier place.
pub open spec fn comes_before(keys: Seq<Seq<char>>, a: int, b: int) -> bool {
    key_lt(keys[a], keys[b]) || (keys[a] == keys[b] && a < b)
}

/// `order` lists the places `0..n` in sorted order.
pub open spec fn sorted_order(keys: Seq<Seq<char>>, order: Seq<int>, n: int) -> bool {
    &&& order.len() == n
    &&& forall|i: int| 0 <= i < n ==> 0 <= #[trigger] order[i] < n
    &&& forall|i: int, j: int|
        0 <= i < j < n ==> comes_before(keys, #[trigger] order[i], #[trigger] order[j])
}

/// `sorted` holds `names` ordered by their keys, names with equal keys in
/// their first order: what the stable `sort_by_key` gives.
pub open spec fn stably_sorted(
    names: Seq<Seq<char>>,
    keys: Seq<Seq<char>>,
    sorted: Seq<Seq<char>>,
) -> bool {
    exists|order: Seq<int>|
        {
            &&& sorted_order(keys, order, names.len() as int)
            &&& sorted.len() == names.len()
            &&& forall|i: int| 0 <= i < sorted.len() ==> #[trigger] sorted[i] == names[order[i]]
        }
}

proof fn lemma_key_lt_total(a: Seq<char>, b: Seq<char>)
    ensures
        key_lt(a, b) || key_lt(b, a) || a == b,
{
    let ea = vstd::utf8::encode_utf8(a);
    let eb = vstd::utf8::encode_utf8(b);
    lemma_bytes_lt_total(ea, eb);
    if ea == eb {
        vstd::utf8::encode_utf8_decode_utf8(a);
        vstd::utf8::encode_utf8_decode_utf8(b);
    }
}

proof fn lemma_key_lt_transitive(a: Seq<char>, b: Seq<char>, c: Seq<char>)
    requires
        key_lt(a, b),
        key_lt(b, c),
    ensures
        key_lt(a, c),
{
    lemma_bytes_lt_transitive(
        vstd::utf8::encode_utf8(a),
        vstd::utf8::encode_utf8(b),
        vstd::utf8::encode_utf8(c),
    );
}

/// `names` sorted by `keys`, the key of each name at its place, names with
/// equal keys keeping their order.
pub fn sort_by_keys(names: &Vec<String>, keys_in: &Vec<String>) -> (r: Vec<String>)
    requires
        keys_in.len() == names.len(),
    ensures
        stably_sorted(texts_of(names@), texts_of(keys_in@), texts_of(r@)),
{
    let ghost all = texts_of(names@);
    let ghost keys = texts_of(keys_in@);
    let mut out: Vec<String> = Vec::new();
    let mut out_keys: Vec<String> = Vec::new();
    let ghost mut order: Seq<int> = Seq::empty();
    let mut i: usize = 0;
    while i < names.len()
        invariant
            i <= names.len(),
            all == texts_of(names@),
            keys == texts_of(keys_in@),
            keys_in.len() == names.len(),
            sorted_order(keys, order, i as int),
            out.len() == i,
            out_keys.len() == i,
            forall|k: int| 0 <= k < i ==> #[trigger] out@[k]@ == all[order[k]],
            forall|k: int| 0 <= k < i ==> #[trigger] out_keys@[k]@ == keys[order[k]],
        decreases names.len() - i,
    {
        let key = keys_in[i].clone();
        assert(key@ == keys[i as int]);
        let mut p: usize = 0;
        while p < out.len() && compare_bytes(key.as_str().as_bytes(), out_keys[p].as_str().as_bytes())
            >= 0
            invariant
                p <= out.len() == out_keys.len() == i,
                i < names.len(),
                keys == texts_of(keys_in@),
                key@ == keys[i as int],
                forall|k: int| 0 <= k < i ==> #[trigger] out_keys@[k]@ == keys[order[k]],
                forall|q: int| 0 <= q < p ==> !key_lt(keys[i as int], #[trigger] keys[order[q]]),
            decreases out.len() - p,
        {
            assert(out_keys@[p as int]@ == keys[order[p as int]]);
            p += 1;
        }
        let ghost old_order = order;
        proof {
            if p < i {
                assert(out_keys@[p as int]@ == keys[order[p as int]]);
                assert(key_lt(keys[i as int], keys[order[p as int]]));
            }
        }
        out.insert(p, names[i].clone());
        out_keys.insert(p, key);
        proof {
            order = old_order.insert(p as int, i as int);
            assert forall|x: int, y: int| 0 <= x < y < i + 1 implies comes_before(
                keys,
                #[trigger] order[x],
                #[trigger] order[y],
            ) by {
                if x == p {
                    // the new item, before every later one
                    let oy = old_order[y - 1];
                    if y - 1 > p {
                        assert(comes_before(keys, old_order[p as int], oy));
                        if key_lt(keys[old_order[p as int]], keys[oy]) {
                            lemma_key_lt_transitive(keys[i as int], keys[old_order[p as int]], keys[oy]);
                        }
                    }
                } else if y == p {
                    let ox = old_order[x];
                    assert(!key_lt(keys[i as int], keys[ox]));
                    lemma_key_lt_total(keys[i as int], keys[ox]);
                } else {
                    let xo = if x < p { x } else { x - 1 };
                    let yo = if y < p { y } else { y - 1 };
                    assert(order[x] == old_order[xo]);
                    assert(order[y] == old_order[yo]);
                    assert(comes_before(keys, old_order[xo], old_order[yo]));
                }
            }
            assert forall|k: int| 0 <= k < i + 1 implies 0 <= #[trigger] order[k] < i + 1 by {
                if k != p {
                    let ko = if k < p { k } else { k - 1 };
                    assert(order[k] == old_order[ko]);
                }
            }
        }
        assert forall|k: int| 0 <= k < i + 1 implies #[trigger] out@[k]@ == all[order[k]] by {
            if k < p {
                assert(order[k] == old_order[k]);
            } else if k > p {
                assert(order[k] == old_order[k - 1]);
            }
        }
        assert forall|k: int| 0 <= k < i + 1 implies #[trigger] out_keys@[k]@ == keys[order[k]] by {
            if k < p {
                assert(order[k] == old_order[k]);
            } else if k > p {
                assert(order[k] == old_order[k - 1]);
            }
        }
        i += 1;
    }
    let ghost sorted = texts_of(out@);
    assert(sorted_order(keys, order, all.len() as int));
    assert(forall|k: int| 0 <= k < sorted.len() ==> #[trigger] sorted[k] == all[order[k]]);
    out
}

/// `names` sorted by their lowercase, as `sort_by_key(|s| s.to_lowercase())`.
pub fn sort_by_lowercase(names: &Vec<String>) -> (r: Vec<String>)
    ensures
        stably_sorted(texts_of(names@), lowercase_keys(texts_of(names@)), texts_of(r@)),
{
    let mut keys: Vec<String> = Vec::new();
    let mut i: usize = 0;
    while i < names.len()
        invariant
            i <= names.len(),
            keys.len() == i,
            forall|k: int| 0 <= k < i ==> #[trigger] keys@[k]@ == lowercase(names@[k]@),
        decreases names.len() - i,
    {
        keys.push(to_lowercase(names[i].as_str()));
        i += 1;
    }
    assert(texts_of(keys@) =~= lowercase_keys(texts_of(names@)));
    sort_by_keys(names, &keys)
}

/// The folder names `output` lists, one per line.
pub open spec fn directory_list(output: Seq<char>) -> Seq<Seq<char>> {
    lines(output).filter(|l: Seq<char>| not_empty(l))
}

/// The subfolders listed in `output`, sorted by their lowercase.
pub fn directory_names(output: &str) -> (v: Vec<String>)
    ensures
        stably_sorted(
            directory_list(output@),
            lowercase_keys(directory_list(output@)),
            texts_of(v@),
        ),
{
    let all = lines_of(output);
    let ghost ls = texts_of(all@);
    let mut names: Vec<String> = Vec::new();
    let mut i: usize = 0;
    while i < all.len()
        invariant
            i <= all.len(),
            ls == texts_of(all@),
            ls == lines(output@),
            texts_of(names@) == ls.take(i as int).filter(|l: Seq<char>| not_empty(l)),
        decreases all.len() - i,
    {
        assert(ls.take(i + 1).drop_last() =~= ls.take(i as int));
        proof {
            reveal(Seq::filter);
        }
        let ghost before = texts_of(names@);
        if !all[i].as_str().is_empty() {
            names.push(all[i].clone());
            assert(texts_of(names@) =~= before.push(ls[i as int]));
        }
        i += 1;
    }
    assert(ls.take(i as int) =~= ls);
    sort_by_lowercase(&names)
}

pub const PROGRAM_SEPARATOR: &'static str = " : ";

/// The error of a program that failed: its name, then what it printed on
/// its error output and on its output, trimmed.
pub open spec fn program_error_text(program: Seq<char>, stderr: Seq<char>, stdout: Seq<char>) -> Seq<
    char,
> {
    program + PROGRAM_SEPARATOR@ + trim(stderr) + trim(stdout)
}

/// The error reported for a program that exited with a failure.
pub fn program_error(program: &str, stderr: &str, stdout: &str) -> (e: String)
    ensures
        e@ == program_error_text(program@, stderr@, stdout@),
{
    let mut e = string_from(program);
    crate::text::push_str(&mut e, PROGRAM_SEPARATOR);
    crate::text::push_str(&mut e, trim_str(stderr).as_str());
    crate::text::push_str(&mut e, trim_str(stdout).as_str());
    e
}

/// Seconds a program run for its output gets before it is stopped.
pub const PROGRAM_TIMEOUT_SECONDS: u64 = 30;

pub const TIMEOUT_END: &'static str = " ne répond pas après 30 secondes.";

pub const START_FAILED: &'static str = "Impossible de lancer ";

/// The error of a program stopped for taking too long: its name, then that
/// it did not answer within the time it gets.
pub open spec fn timeout_error_text(program: Seq<char>) -> Seq<char> {
    program + TIMEOUT_END@
}

/// The error reported for a program stopped after [`PROGRAM_TIMEOUT_SECONDS`].
pub fn timeout_error(program: &str) -> (e: String)
    ensures
        e@ == timeout_error_text(program@),
{
    let mut e = string_from(program);
    crate::text::push_str(&mut e, TIMEOUT_END);
    e
}

/// The error of a program that could not be started, with the reason the
/// system gave.
pub open spec fn start_error_text(program: Seq<char>, reason: Seq<char>) -> Seq<char> {
    START_FAILED@ + program + PROGRAM_SEPARATOR@ + reason
}

/// The error reported for a program the system could not start.
pub fn start_error(program: &str, reason: &str) -> (e: String)
    ensures
        e@ == start_error_text(program@, reason@),
{
    let mut e = string_from(START_FAILED);
    crate::text::push_str(&mut e, program);
    crate::text::push_str(&mut e, PROGRAM_SEPARATOR);
    crate::text::push_str(&mut e, reason);
    e
}

} // verus!
