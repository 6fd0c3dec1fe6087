//! A map from strings to values, kept sorted by key and without duplicates,
//! walked in key order like the `BTreeMap<String, _>` it stands for.
use vstd::prelude::*;

verus! {

/// Strict lexicographic order of byte strings: the order of `String` keys.
pub open spec fn bytes_lt(a: Seq<u8>, b: Seq<u8>) -> bool
    decreases a.len(),
{
    if a.len() == 0 {
        b.len() > 0
    } else if b.len() == 0 {
        false
    } else if a[0] != b[0] {
        a[0] < b[0]
    } else {
        bytes_lt(a.drop_first(), b.drop_first())
    }
}

pub proof fn lemma_bytes_lt_irreflexive(a: Seq<u8>)
    ensures
        !bytes_lt(a, a),
    decreases a.len(),
{
    if a.len() > 0 {
        lemma_bytes_lt_irreflexive(a.drop_first());
    }
}

pub proof fn lemma_bytes_lt_total(a: Seq<u8>, b: Seq<u8>)
    ensures
        a =~= b || bytes_lt(a, b) || bytes_lt(b, a),
    decreases a.len(),
{
    if a.len() > 0 && b.len() > 0 && a[0] == b[0] {
        lemma_bytes_lt_total(a.drop_first(), b.drop_first());
        if a.drop_first() =~= b.drop_first() {
            assert(a =~= seq![a[0]] + a.drop_first());
            assert(b =~= seq![b[0]] + b.drop_first());
        }
    }
}

pub proof fn lemma_bytes_lt_transitive(a: Seq<u8>, b: Seq<u8>, c: Seq<u8>)
    requires
        bytes_lt(a, b),
        bytes_lt(b, c),
    ensures
        bytes_lt(a, c),
    decreases a.len(),
{
    if a.len() > 0 && b.len() > 0 && c.len() > 0 && a[0] == b[0] && b[0] == c[0] {
        lemma_bytes_lt_transitive(a.drop_first(), b.drop_first(), c.drop_first());
    }
}

pub proof fn lemma_bytes_lt_asymmetric(a: Seq<u8>, b: Seq<u8>)
    requires
        bytes_lt(a, b),
    ensures
        !bytes_lt(b, a),
    decreases a.len(),
{
    if a.len() > 0 && b.len() > 0 && a[0] == b[0] {
        lemma_bytes_lt_asymmetric(a.drop_first(), b.drop_first());
    }
}

/// Compares the bytes of two strings: `Less`, `Equal` or `Greater` as -1, 0, 1.
pub(crate) fn compare_bytes(a: &[u8], b: &[u8]) -> (r: i8)
    ensures
        r == 0 <==> a@ =~= b@,
        r < 0 <==> bytes_lt(a@, b@),
        r > 0 <==> bytes_lt(b@, a@),
{
    let mut i: usize = 0;
    proof {
        assert(a@.skip(0) =~= a@);
        assert(b@.skip(0) =~= b@);
    }
    while i < a.len() && i < b.len() && a[i] == b[i]
        invariant
            i <= a.len(),
            i <= b.len(),
            a@.take(i as int) =~= b@.take(i as int),
            bytes_lt(a@, b@) == bytes_lt(a@.skip(i as int), b@.skip(i as int)),
            bytes_lt(b@, a@) == bytes_lt(b@.skip(i as int), a@.skip(i as int)),
        decreases a.len() - i,
    {
        proof {
            assert(a@.skip(i as int).drop_first() =~= a@.skip(i + 1));
            assert(b@.skip(i as int).drop_first() =~= b@.skip(i + 1));
            assert(a@.take(i + 1) =~= a@.take(i as int).push(a@[i as int]));
            assert(b@.take(i + 1) =~= b@.take(i as int).push(b@[i as int]));
        }
        i += 1;
    }
    proof {
        lemma_bytes_lt_irreflexive(a@);
        if i == a.len() && i == b.len() {
            assert(a@ =~= a@.take(i as int));
            assert(b@ =~= b@.take(i as int));
        }
        if i < a.len() && i < b.len() {
            assert(a@[i as int] != b@[i as int]);
            assert(!(a@ =~= b@));
        }
        if i == a.len() && i < b.len() {
            assert(a@.skip(i as int).len() == 0);
            assert(a@.len() != b@.len());
        }
        if i < a.len() && i == b.len() {
            assert(b@.skip(i as int).len() == 0);
            assert(a@.len() != b@.len());
        }
    }
    if i < a.len() && i < b.len() {
        if a[i] < b[i] {
            -1
        } else {
            1
        }
    } else if i < b.len() {
        -1
    } else if i < a.len() {
        1
    } else {
        0
    }
}

/// Byte order of two keys.
pub open spec fn key_lt(a: Seq<char>, b: Seq<char>) -> bool {
    bytes_lt(vstd::utf8::encode_utf8(a), vstd::utf8::encode_utf8(b))
}

/// Keys of `entries`, in order.
pub open spec fn keys_of<V>(entries: Seq<(Seq<char>, V)>) -> Seq<Seq<char>> {
    entries.map_values(|e: (Seq<char>, V)| e.0)
}

/// Strictly increasing keys, hence no key twice.
pub open spec fn sorted_keys<V>(entries: Seq<(Seq<char>, V)>) -> bool {
    forall|i: int, j: int|
        0 <= i < j < entries.len() ==> key_lt(#[trigger] entries[i].0, #[trigger] entries[j].0)
}

/// Value of `key` among `entries`.
pub open spec fn lookup<V>(entries: Seq<(Seq<char>, V)>, key: Seq<char>) -> Option<V>
    decreases entries.len(),
{
    if entries.len() == 0 {
        None
    } else if entries[0].0 == key {
        Some(entries[0].1)
    } else {
        lookup(entries.drop_first(), key)
    }
}

/// Position of the first key not below the key whose bytes are `kb`, and
/// whether that key is the one sought.
fn find<V>(entries: &Vec<(String, V)>, kb: &[u8], Ghost(key): Ghost<Seq<char>>) -> (r: (
    usize,
    bool,
))
    requires
        kb@ == vstd::utf8::encode_utf8(key),
    ensures
        r.0 <= entries.len(),
        forall|j: int| 0 <= j < r.0 ==> key_lt(#[trigger] entries_view(entries@)[j].0, key),
        r.1 ==> r.0 < entries.len() && entries_view(entries@)[r.0 as int].0 == key,
        !r.1 && r.0 < entries.len() ==> key_lt(key, entries_view(entries@)[r.0 as int].0),
{
    let mut i: usize = 0;
    while i < entries.len()
        invariant
            i <= entries.len(),
            kb@ == vstd::utf8::encode_utf8(key),
            forall|j: int| 0 <= j < i ==> key_lt(#[trigger] entries_view(entries@)[j].0, key),
        decreases entries.len() - i,
    {
        let c = compare_bytes(entries[i].0.as_str().as_bytes(), kb);
        assert(entries_view(entries@)[i as int].0 == entries@[i as int].0@);
        if c == 0 {
            proof {
                vstd::utf8::encode_utf8_decode_utf8(entries@[i as int].0@);
                vstd::utf8::encode_utf8_decode_utf8(key);
            }
            return (i, true);
        }
        if c > 0 {
            return (i, false);
        }
        i += 1;
    }
    (i, false)
}

/// In sorted entries, `find`'s answer decides the lookup.
proof fn lemma_lookup_sorted<V>(s: Seq<(Seq<char>, V)>, key: Seq<char>, i: int, found: bool)
    requires
        sorted_keys(s),
        0 <= i <= s.len(),
        forall|j: int| 0 <= j < i ==> key_lt(#[trigger] s[j].0, key),
        found ==> i < s.len() && s[i].0 == key,
        !found && i < s.len() ==> key_lt(key, s[i].0),
    ensures
        found ==> lookup(s, key) == Some(s[i].1),
        !found ==> lookup(s, key) is None,
    decreases s.len(),
{
    lemma_bytes_lt_irreflexive(vstd::utf8::encode_utf8(key));
    if s.len() > 0 {
        let t = s.drop_first();
        assert(sorted_keys(t)) by {
            assert forall|a: int, b: int| 0 <= a < b < t.len() implies key_lt(
                #[trigger] t[a].0,
                #[trigger] t[b].0,
            ) by {
                assert(t[a] == s[a + 1]);
                assert(t[b] == s[b + 1]);
            }
        }
        if i == 0 {
            if found {
            } else {
                assert forall|j: int| 0 <= j < s.len() implies #[trigger] s[j].0 != key by {
                    if j > 0 {
                        lemma_bytes_lt_transitive(
                            vstd::utf8::encode_utf8(key),
                            vstd::utf8::encode_utf8(s[0].0),
                            vstd::utf8::encode_utf8(s[j].0),
                        );
                    }
                }
                lemma_lookup_absent(s, key);
            }
        } else {
            assert(s[0].0 != key);
            assert forall|j: int| 0 <= j < i - 1 implies key_lt(#[trigger] t[j].0, key) by {
                assert(t[j] == s[j + 1]);
            }
            if i - 1 < t.len() {
                assert(t[i - 1] == s[i]);
            }
            lemma_lookup_sorted(t, key, i - 1, found);
        }
    }
}

spec fn entries_view<V>(e: Seq<(String, V)>) -> Seq<(Seq<char>, V)> {
    e.map_values(|e: (String, V)| (e.0@, e.1))
}

#[derive(Debug, PartialEq)]
pub struct StrMap<V> {
    entries: Vec<(String, V)>,
}

impl<V> StrMap<V> {
    /// Entries in key order, keys as characters.
    pub closed spec fn view(&self) -> Seq<(Seq<char>, V)> {
        entries_view(self.entries@)
    }

    #[verifier::type_invariant]
    closed spec fn well_formed(self) -> bool {
        sorted_keys(self@)
    }

    /// An empty map.
    pub fn new() -> (m: Self)
        ensures
            m@ == Seq::<(Seq<char>, V)>::empty(),
    {
        let m = StrMap { entries: Vec::new() };
        assert(m@ =~= Seq::<(Seq<char>, V)>::empty());
        m
    }

    pub fn len(&self) -> (n: usize)
        ensures
            n == self@.len(),
    {
        self.entries.len()
    }

    /// The `i`-th entry in key order.
    pub fn entry(&self, i: usize) -> (e: (&String, &V))
        requires
            i < self@.len(),
        ensures
            e.0@ == self@[i as int].0,
            *e.1 == self@[i as int].1,
    {
        let e = &self.entries[i];
        (&e.0, &e.1)
    }

    /// Value of `key`, as `BTreeMap::get`.
    pub fn get(&self, key: &str) -> (r: Option<&V>)
        ensures
            r matches Some(v) ==> lookup(self@, key@) == Some(*v),
            r is None ==> lookup(self@, key@) is None,
    {
        proof {
            use_type_invariant(self);
        }
        let (i, found) = find(&self.entries, key.as_bytes(), Ghost(key@));
        proof {
            lemma_lookup_sorted(self@, key@, i as int, found);
        }
        if found {
            Some(&self.entries[i].1)
        } else {
            None
        }
    }

    /// Sets the value of `key`, keeping the keys sorted, as `BTreeMap::insert`.
    pub fn insert(&mut self, key: String, value: V)
        ensures
            forall|k: Seq<char>| #[trigger] lookup(final(self)@, k) == if k == key@ {
                Some(value)
            } else {
                lookup(old(self)@, k)
            },
            keys_of(final(self)@).to_set() == keys_of(old(self)@).to_set().insert(key@),
    {
        proof {
            use_type_invariant(&*self);
        }
        let mut entries: Vec<(String, V)> = Vec::new();
        std::mem::swap(&mut entries, &mut self.entries);
        let ghost old_view = entries_view(entries@);
        assert(old_view == old(self)@);
        let (i, found) = find(&entries, key.as_str().as_bytes(), Ghost(key@));
        if found {
            entries.set(i, (key, value));
        } else {
            entries.insert(i, (key, value));
        }
        let ghost n = entries_view(entries@);
        proof {
            if found {
                assert(n =~= old_view.update(i as int, (key@, value)));
                assert forall|a: int, b: int| 0 <= a < b < n.len() implies key_lt(
                    #[trigger] n[a].0,
                    #[trigger] n[b].0,
                ) by {
                    if a == i as int {
                        assert(n[a].0 == old_view[a].0);
                    }
                    if b == i as int {
                        assert(n[b].0 == old_view[b].0);
                    }
                }
                lemma_lookup_update(old_view, i as int, key@, value);
                assert(keys_of(n) =~= keys_of(old_view));
                assert(keys_of(old_view)[i as int] == key@);
                assert(keys_of(old_view).to_set().contains(key@));
                assert(keys_of(n).to_set() =~= keys_of(old_view).to_set().insert(key@));
            } else {
                assert(n =~= old_view.insert(i as int, (key@, value)));
                if i < old_view.len() {
                    let kb_i = vstd::utf8::encode_utf8(old_view[i as int].0);
                    let kb_k = vstd::utf8::encode_utf8(key@);
                    lemma_bytes_lt_total(kb_i, kb_k);
                    assert(bytes_lt(kb_k, kb_i));
                }
                assert forall|a: int, b: int| 0 <= a < b < n.len() implies key_lt(
                    #[trigger] n[a].0,
                    #[trigger] n[b].0,
                ) by {
                    if b < i {
                    } else if b == i {
                        assert(n[b].0 == key@);
                        assert(n[a] == old_view[a]);
                    } else if a == i {
                        assert(n[b] == old_view[b - 1]);
                        if b - 1 > i {
                            assert(key_lt(old_view[i as int].0, old_view[b - 1].0));
                            lemma_bytes_lt_transitive(
                                vstd::utf8::encode_utf8(key@),
                                vstd::utf8::encode_utf8(old_view[i as int].0),
                                vstd::utf8::encode_utf8(old_view[b - 1].0),
                            );
                        }
                    } else if a < i {
                        assert(n[a] == old_view[a]);
                        assert(n[b] == old_view[b - 1]);
                    } else {
                        assert(n[a] == old_view[a - 1]);
                        assert(n[b] == old_view[b - 1]);
                    }
                }
                assert forall|j: int| 0 <= j < old_view.len() implies #[trigger] old_view[j].0
                    != key@ by {
                    if j < i {
                        lemma_bytes_lt_irreflexive(vstd::utf8::encode_utf8(key@));
                    } else {
                        lemma_bytes_lt_irreflexive(vstd::utf8::encode_utf8(key@));
                        if j > i {
                            lemma_bytes_lt_transitive(
                                vstd::utf8::encode_utf8(key@),
                                vstd::utf8::encode_utf8(old_view[i as int].0),
                                vstd::utf8::encode_utf8(old_view[j].0),
                            );
                        }
                    }
                }
                lemma_lookup_insert(old_view, i as int, key@, value);
                assert(keys_of(n) =~= keys_of(old_view).insert(i as int, key@));
                assert forall|k: Seq<char>| keys_of(n).to_set().contains(k) == keys_of(
                    old_view,
                ).to_set().insert(key@).contains(k) by {
                    if keys_of(n).contains(k) {
                        let j = choose|j: int| 0 <= j < keys_of(n).len() && keys_of(n)[j] == k;
                        if j > i {
                            assert(keys_of(old_view)[j - 1] == k);
                        } else if j < i {
                            assert(keys_of(old_view)[j] == k);
                        }
                    }
                    if keys_of(old_view).contains(k) {
                        let j = choose|j: int|
                            0 <= j < keys_of(old_view).len() && keys_of(old_view)[j] == k;
                        if j >= i {
                            assert(keys_of(n)[j + 1] == k);
                        } else {
                            assert(keys_of(n)[j] == k);
                        }
                    }
                    if k == key@ {
                        assert(keys_of(n)[i as int] == k);
                    }
                }
                assert(keys_of(n).to_set() =~= keys_of(old_view).to_set().insert(key@));
            }
        }
        self.entries = entries;
    }

    /// Removes every entry.
    pub fn clear(&mut self)
        ensures
            final(self)@ == Seq::<(Seq<char>, V)>::empty(),
    {
        self.entries = Vec::new();
        assert(self@ =~= Seq::<(Seq<char>, V)>::empty());
    }
}

impl<V: Clone> Clone for StrMap<V> {
    /// Same keys, each value cloned.
    fn clone(&self) -> (r: Self)
        ensures
            keys_of(r@) == keys_of(self@),
            forall|i: int| 0 <= i < r@.len() ==> cloned::<V>(self@[i].1, #[trigger] r@[i].1),
    {
        proof {
            use_type_invariant(self);
        }
        let mut entries: Vec<(String, V)> = Vec::new();
        let mut i: usize = 0;
        while i < self.entries.len()
            invariant
                i <= self.entries.len(),
                self@ == entries_view(self.entries@),
                entries.len() == i,
                forall|j: int| 0 <= j < i ==> (#[trigger] entries_view(entries@)[j]).0 == self@[j].0,
                forall|j: int|
                    0 <= j < i ==> cloned::<V>(self@[j].1, #[trigger] entries_view(entries@)[j].1),
            decreases self.entries.len() - i,
        {
            let e = &self.entries[i];
            let k = e.0.clone();
            let val = e.1.clone();
            assert(cloned::<V>(e.1, val));
            let ghost before = entries@;
            entries.push((k, val));
            assert(entries_view(entries@) =~= entries_view(before).push((k@, val)));
            assert(self@[i as int] == (e.0@, e.1));
            i += 1;
        }
        let ghost v = entries_view(entries@);
        assert(keys_of(v) =~= keys_of(self@));
        assert(sorted_keys(v)) by {
            assert forall|a: int, b: int| 0 <= a < b < v.len() implies key_lt(
                #[trigger] v[a].0,
                #[trigger] v[b].0,
            ) by {
                assert(v[a].0 == self@[a].0);
                assert(v[b].0 == self@[b].0);
            }
        }
        StrMap { entries }
    }
}

proof fn lemma_lookup_update<V>(s: Seq<(Seq<char>, V)>, i: int, key: Seq<char>, value: V)
    requires
        0 <= i < s.len(),
        s[i].0 == key,
        sorted_keys(s),
    ensures
        forall|k: Seq<char>| #[trigger] lookup(s.update(i, (key, value)), k) == if k == key {
            Some(value)
        } else {
            lookup(s, k)
        },
    decreases s.len(),
{
    assert forall|k: Seq<char>| #[trigger] lookup(s.update(i, (key, value)), k) == if k == key {
        Some(value)
    } else {
        lookup(s, k)
    } by {
        lemma_lookup_update_one(s, i, key, value, k);
    }
}

proof fn lemma_lookup_update_one<V>(
    s: Seq<(Seq<char>, V)>,
    i: int,
    key: Seq<char>,
    value: V,
    k: Seq<char>,
)
    requires
        0 <= i < s.len(),
        s[i].0 == key,
        sorted_keys(s),
    ensures
        lookup(s.update(i, (key, value)), k) == if k == key {
            Some(value)
        } else {
            lookup(s, k)
        },
    decreases s.len(),
{
    let u = s.update(i, (key, value));
    if i == 0 {
        assert(u[0] == (key, value));
        if k != key {
            assert(u.drop_first() =~= s.drop_first());
        }
    } else {
        assert(u[0] == s[0]);
        assert(u.drop_first() =~= s.drop_first().update(i - 1, (key, value)));
        lemma_bytes_lt_irreflexive(vstd::utf8::encode_utf8(key));
        assert(key_lt(s[0].0, s[i].0));
        assert(s[0].0 != key);
        assert(sorted_keys(s.drop_first())) by {
            assert forall|a: int, b: int| 0 <= a < b < s.drop_first().len() implies key_lt(
                #[trigger] s.drop_first()[a].0,
                #[trigger] s.drop_first()[b].0,
            ) by {
                assert(s.drop_first()[a] == s[a + 1]);
                assert(s.drop_first()[b] == s[b + 1]);
            }
        }
        lemma_lookup_update_one(s.drop_first(), i - 1, key, value, k);
    }
}

proof fn lemma_lookup_insert<V>(s: Seq<(Seq<char>, V)>, i: int, key: Seq<char>, value: V)
    requires
        0 <= i <= s.len(),
        forall|j: int| 0 <= j < s.len() ==> #[trigger] s[j].0 != key,
    ensures
        forall|k: Seq<char>| #[trigger] lookup(s.insert(i, (key, value)), k) == if k == key {
            Some(value)
        } else {
            lookup(s, k)
        },
    decreases s.len(),
{
    assert forall|k: Seq<char>| #[trigger] lookup(s.insert(i, (key, value)), k) == if k == key {
        Some(value)
    } else {
        lookup(s, k)
    } by {
        lemma_lookup_insert_one(s, i, key, value, k);
    }
}

proof fn lemma_lookup_absent<V>(s: Seq<(Seq<char>, V)>, key: Seq<char>)
    requires
        forall|j: int| 0 <= j < s.len() ==> #[trigger] s[j].0 != key,
    ensures
        lookup(s, key) is None,
    decreases s.len(),
{
    if s.len() > 0 {
        assert(s[0].0 != key);
        assert forall|j: int| 0 <= j < s.drop_first().len() implies #[trigger] s.drop_first()[j].0
            != key by {
            assert(s.drop_first()[j] == s[j + 1]);
        }
        lemma_lookup_absent(s.drop_first(), key);
    }
}

proof fn lemma_lookup_insert_one<V>(
    s: Seq<(Seq<char>, V)>,
    i: int,
    key: Seq<char>,
    value: V,
    k: Seq<char>,
)
    requires
        0 <= i <= s.len(),
        forall|j: int| 0 <= j < s.len() ==> #[trigger] s[j].0 != key,
    ensures
        lookup(s.insert(i, (key, value)), k) == if k == key {
            Some(value)
        } else {
            lookup(s, k)
        },
    decreases s.len(),
{
    let u = s.insert(i, (key, value));
    if i == 0 {
        assert(u[0] == (key, value));
        assert(u.drop_first() =~= s);
    } else {
        assert(u[0] == s[0]);
        assert(u.drop_first() =~= s.drop_first().insert(i - 1, (key, value)));
        assert forall|j: int| 0 <= j < s.drop_first().len() implies #[trigger] s.drop_first()[j].0
            != key by {
            assert(s.drop_first()[j] == s[j + 1]);
        }
        lemma_lookup_insert_one(s.drop_first(), i - 1, key, value, k);
        if k == key {
            assert(s[0].0 != key);
        }
    }
}

} // verus!
