//! Key/value memory with an XOR-enciphered line-based persistence format.
use vstd::prelude::*;
use crate::text::{
    join, join_chars, lines, lines_chars, match_at, find_from, split, split_scan, split_once,
    split_once_chars, str_eq, string_of, chars_of, push_all, strip_cr,
};
use vstd::string::StrSliceExecFns;

verus! {

broadcast use vstd::slice::group_slice_axioms;

/// The map that a list of entries with distinct keys stands for.
pub open spec fn map_of(es: Seq<(Seq<char>, Seq<char>)>) -> Map<Seq<char>, Seq<char>>
    decreases es.len(),
{
    if es.len() == 0 {
        Map::empty()
    } else {
        map_of(es.drop_last()).insert(es.last().0, es.last().1)
    }
}

/// No two entries share a key.
pub open spec fn distinct_keys(es: Seq<(Seq<char>, Seq<char>)>) -> bool {
    forall|i: int, j: int| 0 <= i < j < es.len() ==> es[i].0 != es[j].0
}

/// The persisted line of one entry: `key=value`.
pub open spec fn entry_line(e: (Seq<char>, Seq<char>)) -> Seq<char> {
    e.0 + seq!['='] + e.1
}

/// The plain text of a store: its entry lines joined by newlines.
pub open spec fn serialize(es: Seq<(Seq<char>, Seq<char>)>) -> Seq<char> {
    join(es.map_values(|e: (Seq<char>, Seq<char>)| entry_line(e)), seq!['\n'])
}

/// Every byte XOR-ed with `key`.
pub open spec fn xor_all(b: Seq<u8>, key: u8) -> Seq<u8> {
    b.map_values(|x: u8| x ^ key)
}

/// Each byte read as the character with the same number.
pub open spec fn latin1(b: Seq<u8>) -> Seq<char> {
    b.map_values(|x: u8| x as char)
}

/// The bytes that a store with these entries is saved as.
pub open spec fn saved_bytes(es: Seq<(Seq<char>, Seq<char>)>, key: u8) -> Seq<u8> {
    xor_all(vstd::utf8::encode_utf8(serialize(es)), key)
}

/// The map that loading lines gives: each line with an `=` sets the
/// text before the first `=` to the text after it, later lines winning.
pub open spec fn load_lines(ls: Seq<Seq<char>>) -> Map<Seq<char>, Seq<char>>
    decreases ls.len(),
{
    if ls.len() == 0 {
        Map::empty()
    } else {
        match split_once(ls.last(), seq!['=']) {
            Some(kv) => load_lines(ls.drop_last()).insert(kv.0, kv.1),
            None => load_lines(ls.drop_last()),
        }
    }
}

/// The map that loading these saved bytes gives.
pub open spec fn loaded_map(bytes: Seq<u8>, key: u8) -> Map<Seq<char>, Seq<char>> {
    load_lines(lines(latin1(xor_all(bytes, key))))
}

/// An entry that the line format carries unchanged: ASCII text, no line
/// break, no `=` in the key, and no carriage return ending the value.
pub open spec fn entry_persists(e: (Seq<char>, Seq<char>)) -> bool {
    &&& vstd::utf8::is_ascii_chars(e.0)
    &&& vstd::utf8::is_ascii_chars(e.1)
    &&& !e.0.contains('=')
    &&& !e.0.contains('\n')
    &&& !e.1.contains('\n')
    &&& !(e.1.len() > 0 && e.1.last() == '\r')
}

/// In-memory key/value store, kept as a list of entries whose keys are
/// distinct (a type invariant), which makes it a map (its view). A
/// `HashMap<String, String>` is not used: vstd's specification of it holds
/// only for key types that obey its key model, which it grants to integer
/// keys and not to `String`, and vstd's `StringHashMap` offers no way to
/// walk the entries, which saving the store needs.
#[derive(Debug)]
pub struct MemoryStore {
    entries: Vec<(String, String)>,
}

impl MemoryStore {
    /// The entries, in the order their keys were first stored.
    pub closed spec fn entries(&self) -> Seq<(Seq<char>, Seq<char>)> {
        self.entries@.map_values(|e: (String, String)| (e.0@, e.1@))
    }

    #[verifier::type_invariant]
    closed spec fn keys_distinct(&self) -> bool {
        distinct_keys(self.entries())
    }
}

impl View for MemoryStore {
    type V = Map<Seq<char>, Seq<char>>;

    open spec fn view(&self) -> Map<Seq<char>, Seq<char>> {
        map_of(self.entries())
    }
}

impl Default for MemoryStore {
    fn default() -> (r: Self)
        ensures
            r.entries() == Seq::<(Seq<char>, Seq<char>)>::empty(),
            r@ == Map::<Seq<char>, Seq<char>>::empty(),
    {
        MemoryStore::new()
    }
}

// ---------------------------------------------------------------------
// Lemmas about the entry list and the map it stands for
// ---------------------------------------------------------------------

pub proof fn lemma_map_of_contains(es: Seq<(Seq<char>, Seq<char>)>, k: Seq<char>)
    requires
        distinct_keys(es),
    ensures
        map_of(es).contains_key(k) <==> exists|i: int| 0 <= i < es.len() && es[i].0 == k,
        forall|i: int| 0 <= i < es.len() && es[i].0 == k ==> map_of(es)[k] == es[i].1,
    decreases es.len(),
{
    if es.len() > 0 {
        let d = es.drop_last();
        lemma_map_of_contains(d, k);
        if map_of(es).contains_key(k) && es.last().0 != k {
            let i = choose|i: int| 0 <= i < d.len() && d[i].0 == k;
            assert(es[i].0 == k);
        }
        assert forall|i: int| 0 <= i < es.len() && es[i].0 == k implies map_of(es)[k] == es[i].1 by {
            if i < es.len() - 1 {
                assert(d[i] == es[i]);
            }
        }
        if exists|i: int| 0 <= i < es.len() && es[i].0 == k {
            let i = choose|i: int| 0 <= i < es.len() && es[i].0 == k;
            if i < es.len() - 1 {
                assert(d[i] == es[i]);
            }
        }
    }
}

pub proof fn lemma_map_of_update(es: Seq<(Seq<char>, Seq<char>)>, i: int, v: Seq<char>)
    requires
        distinct_keys(es),
        0 <= i < es.len(),
    ensures
        map_of(es.update(i, (es[i].0, v))) == map_of(es).insert(es[i].0, v),
        distinct_keys(es.update(i, (es[i].0, v))),
    decreases es.len(),
{
    let u = es.update(i, (es[i].0, v));
    if i == es.len() - 1 {
        assert(u.drop_last() == es.drop_last());
        lemma_map_of_contains(es.drop_last(), es[i].0);
        assert(map_of(es) == map_of(es.drop_last()).insert(es[i].0, es[i].1));
        assert(map_of(u) =~= map_of(es).insert(es[i].0, v));
    } else {
        let d = es.drop_last();
        lemma_map_of_update(d, i, v);
        assert(u.drop_last() == d.update(i, (d[i].0, v)));
        assert(es.last().0 != es[i].0);
        assert(map_of(u) =~= map_of(es).insert(es[i].0, v));
    }
}

impl MemoryStore {
    /// An empty store.
    pub fn new() -> (r: Self)
        ensures
            r.entries() == Seq::<(Seq<char>, Seq<char>)>::empty(),
            r@ == Map::<Seq<char>, Seq<char>>::empty(),
    {
        let r = MemoryStore { entries: Vec::new() };
        assert(r.entries() == Seq::<(Seq<char>, Seq<char>)>::empty());
        r
    }

    /// Position of the entry with key `key`.
    fn position(&self, key: &str) -> (r: Option<usize>)
        ensures
            r matches Some(i) ==> i < self.entries().len() && self.entries()[i as int].0 == key@,
            r is None ==> forall|i: int|
                0 <= i < self.entries().len() ==> self.entries()[i].0 != key@,
    {
        let n = self.entries.len();
        for i in 0..n
            invariant
                n == self.entries@.len(),
                forall|j: int| 0 <= j < i ==> self.entries()[j].0 != key@,
        {
            if str_eq(self.entries[i].0.as_str(), key) {
                return Some(i);
            }
        }
        None
    }

    /// Stores `value` under `key`, replacing any earlier value.
    pub fn put(&mut self, key: &str, value: &str)
        ensures
            final(self)@ == old(self)@.insert(key@, value@),
            old(self)@.contains_key(key@) ==> final(self).entries().len() == old(self).entries().len(),
            !old(self)@.contains_key(key@) ==> final(self).entries() == old(self).entries().push(
                (key@, value@),
            ),
    {
        proof {
            use_type_invariant(&*self);
            lemma_map_of_contains(self.entries(), key@);
        }
        match self.position(key) {
            Some(i) => {
                let ghost es = self.entries();
                let mut entries: Vec<(String, String)> = Vec::new();
                std::mem::swap(&mut entries, &mut self.entries);
                entries.set(i, (String::from_str(key), String::from_str(value)));
                proof {
                    assert(entries@.map_values(|e: (String, String)| (e.0@, e.1@)) == es.update(
                        i as int,
                        (es[i as int].0, value@),
                    ));
                    lemma_map_of_update(es, i as int, value@);
                }
                self.entries = entries;
            },
            None => {
                let ghost es = self.entries();
                let mut entries: Vec<(String, String)> = Vec::new();
                std::mem::swap(&mut entries, &mut self.entries);
                entries.push((String::from_str(key), String::from_str(value)));
                proof {
                    let ne = entries@.map_values(|e: (String, String)| (e.0@, e.1@));
                    assert(ne == es.push((key@, value@)));
                    assert(ne.drop_last() == es);
                }
                self.entries = entries;
            },
        }
    }

    /// The value stored under `key`, if any.
    pub fn get(&self, key: &str) -> (r: Option<&str>)
        ensures
            r matches Some(v) ==> self@.contains_key(key@) && v@ == self@[key@],
            r is None ==> !self@.contains_key(key@),
    {
        proof {
            use_type_invariant(self);
            lemma_map_of_contains(self.entries(), key@);
        }
        match self.position(key) {
            Some(i) => Some(self.entries[i].1.as_str()),
            None => None,
        }
    }
}


/// A read right after a write of the same key gives the written value,
/// and every other key keeps what it had.
pub proof fn lemma_read_after_write(
    before: Map<Seq<char>, Seq<char>>,
    after: Map<Seq<char>, Seq<char>>,
    key: Seq<char>,
    value: Seq<char>,
)
    requires
        after == before.insert(key, value),
    ensures
        after.contains_key(key),
        after[key] == value,
        forall|other: Seq<char>|
            other != key ==> (#[trigger] after.contains_key(other) == before.contains_key(other)
                && (before.contains_key(other) ==> after[other] == before[other])),
{
}

// ---------------------------------------------------------------------
// Persistence format
// ---------------------------------------------------------------------

impl MemoryStore {
    /// The enciphered bytes this store is saved as: the `key=value` lines
    /// joined by newlines, UTF-8 encoded, each byte XOR-ed with `key`.
    pub fn encrypted_bytes(&self, key: u8) -> (r: Vec<u8>)
        ensures
            r@ == saved_bytes(self.entries(), key),
    {
        let ghost es = self.entries();
        let ghost want = es.map_values(|e: (Seq<char>, Seq<char>)| entry_line(e));
        let mut ls: Vec<Vec<char>> = Vec::new();
        let n = self.entries.len();
        for i in 0..n
            invariant
                n == self.entries@.len(),
                es == self.entries(),
                want == es.map_values(|e: (Seq<char>, Seq<char>)| entry_line(e)),
                ls@.len() == i,
                forall|j: int| 0 <= j < i ==> #[trigger] ls@[j]@ == want[j],
        {
            let mut line = chars_of(self.entries[i].0.as_str());
            line.push('=');
            let v = chars_of(self.entries[i].1.as_str());
            push_all(&mut line, v.as_slice());
            assert(es[i as int] == (self.entries@[i as int].0@, self.entries@[i as int].1@));
            ls.push(line);
        }
        assert(ls@.map_values(|v: Vec<char>| v@) == want);
        let nl = vec!['\n'];
        let text = join_chars(ls.as_slice(), nl.as_slice());
        assert(nl@ == seq!['\n']);
        let s = string_of(text.as_slice());
        let plain = s.as_str().as_bytes_vec();
        let mut out: Vec<u8> = Vec::new();
        let m = plain.len();
        for i in 0..m
            invariant
                m == plain@.len(),
                out@ == xor_all(plain@.take(i as int), key),
        {
            out.push(plain[i] ^ key);
            assert(xor_all(plain@.take(i + 1), key) == xor_all(plain@.take(i as int), key).push(
                plain@[i as int] ^ key,
            ));
        }
        assert(plain@.take(m as int) == plain@);
        out
    }

    /// The store that saved bytes load as: each byte XOR-ed with `key` and
    /// read as a character; every line with an `=` sets the text before the
    /// first `=` to the text after it.
    pub fn from_encrypted_bytes(bytes: &[u8], key: u8) -> (r: MemoryStore)
        ensures
            r@ == loaded_map(bytes@, key),
    {
        let mut plain: Vec<char> = Vec::new();
        let n = bytes.len();
        for i in 0..n
            invariant
                n == bytes@.len(),
                plain@ == latin1(xor_all(bytes@.take(i as int), key)),
        {
            plain.push((bytes[i] ^ key) as char);
            assert(latin1(xor_all(bytes@.take(i + 1), key)) == latin1(
                xor_all(bytes@.take(i as int), key),
            ).push((bytes@[i as int] ^ key) as char));
        }
        assert(bytes@.take(n as int) == bytes@);
        let ls = lines_chars(plain.as_slice());
        let ghost lv = lines(plain@);
        let eq = vec!['='];
        assert(eq@ == seq!['=']);
        let mut store = MemoryStore::new();
        let m = ls.len();
        for i in 0..m
            invariant
                m == ls@.len(),
                lv.len() == m,
                eq@ == seq!['='],
                forall|k: int| 0 <= k < m ==> #[trigger] ls@[k]@ == lv[k],
                store@ == load_lines(lv.take(i as int)),
        {
            assert(lv.take(i + 1).drop_last() == lv.take(i as int));
            assert(lv.take(i + 1).last() == ls@[i as int]@);
            match split_once_chars(ls[i].as_slice(), eq.as_slice()) {
                Some(kv) => {
                    let k = string_of(kv.0.as_slice());
                    let v = string_of(kv.1.as_slice());
                    store.put(k.as_str(), v.as_str());
                },
                None => {},
            }
        }
        assert(lv.take(m as int) == lv);
        store
    }
}

// ---------------------------------------------------------------------
// The persistence round trip
// ---------------------------------------------------------------------

proof fn lemma_xor_twice(b: Seq<u8>, key: u8)
    ensures
        xor_all(xor_all(b, key), key) == b,
{
    assert forall|i: int| 0 <= i < b.len() implies xor_all(xor_all(b, key), key)[i] == b[i] by {
        let x = b[i];
        assert((x ^ key) ^ key == x) by (bit_vector);
    }
    assert(xor_all(xor_all(b, key), key) =~= b);
}

proof fn lemma_latin1_ascii(s: Seq<char>)
    requires
        vstd::utf8::is_ascii_chars(s),
    ensures
        latin1(vstd::utf8::encode_utf8(s)) == s,
{
    vstd::utf8::is_ascii_chars_encode_utf8(s);
    let e = vstd::utf8::encode_utf8(s);
    assert forall|i: int| 0 <= i < s.len() implies latin1(e)[i] == s[i] by {
        let c = s[i];
        assert('\0' <= c <= '\u{7f}');
        assert(e[i] == c as u8);
        assert((c as u8) as char == c);
    }
    assert(latin1(e) =~= s);
}

proof fn lemma_join_ascii(ls: Seq<Seq<char>>, sep: Seq<char>)
    requires
        vstd::utf8::is_ascii_chars(sep),
        forall|i: int| 0 <= i < ls.len() ==> vstd::utf8::is_ascii_chars(#[trigger] ls[i]),
    ensures
        vstd::utf8::is_ascii_chars(join(ls, sep)),
    decreases ls.len(),
{
    if ls.len() > 1 {
        lemma_join_ascii(ls.drop_last(), sep);
        let a = join(ls.drop_last(), sep);
        let b = ls.last();
        assert(vstd::utf8::is_ascii_chars(b));
        assert forall|i: int| 0 <= i < join(ls, sep).len() implies '\0' <= #[trigger] join(
            ls,
            sep,
        )[i] <= '\u{7f}' by {
            if i < a.len() {
                assert(join(ls, sep)[i] == a[i]);
            } else if i < a.len() + sep.len() {
                assert(join(ls, sep)[i] == sep[i - a.len()]);
            } else {
                assert(join(ls, sep)[i] == b[i - a.len() - sep.len()]);
            }
        }
    } else if ls.len() == 1 {
        assert(vstd::utf8::is_ascii_chars(ls[0]));
    }
}

/// Scanning text with no newline at or after `cur` gives one last piece.
proof fn lemma_split_scan_tail(s: Seq<char>, start: int, cur: int)
    requires
        0 <= start <= cur <= s.len(),
        forall|j: int| cur <= j < s.len() ==> s[j] != '\n',
    ensures
        split_scan(s, seq!['\n'], start, cur) == seq![s.subrange(start, s.len() as int)],
    decreases s.len() - cur,
{
    if cur + 1 <= s.len() {
        assert(!match_at(s, seq!['\n'], cur)) by {
            if match_at(s, seq!['\n'], cur) {
                assert(s.subrange(cur, cur + 1)[0] == s[cur]);
            }
        }
        lemma_split_scan_tail(s, start, cur + 1);
    }
}

/// Splitting `x + "\n" + y`, where `y` has no newline, gives the pieces of
/// `x` followed by `y`.
proof fn lemma_split_scan_append(x: Seq<char>, y: Seq<char>, start: int, cur: int)
    requires
        0 <= start <= cur <= x.len(),
        !y.contains('\n'),
    ensures
        split_scan(x + seq!['\n'] + y, seq!['\n'], start, cur) == split_scan(
            x,
            seq!['\n'],
            start,
            cur,
        ).push(y),
    decreases x.len() - cur,
{
    let nl = seq!['\n'];
    let s = x + nl + y;
    if cur == x.len() {
        assert(match_at(s, nl, cur)) by {
            assert(s.subrange(cur, cur + 1) =~= nl);
        }
        assert forall|j: int| x.len() + 1 <= j < s.len() implies s[j] != '\n' by {
            assert(s[j] == y[j - x.len() - 1]);
        }
        lemma_split_scan_tail(s, x.len() + 1int, x.len() + 1int);
        assert(s.subrange(x.len() + 1int, s.len() as int) =~= y);
        assert(s.subrange(start, cur) =~= x.subrange(start, x.len() as int));
    } else {
        assert(s.subrange(cur, cur + 1) =~= x.subrange(cur, cur + 1));
        if match_at(x, nl, cur) {
            assert(s.subrange(start, cur) =~= x.subrange(start, cur));
            lemma_split_scan_append(x, y, cur + 1, cur + 1);
            assert(split_scan(s, nl, start, cur) == seq![s.subrange(start, cur)] + split_scan(
                s,
                nl,
                cur + 1,
                cur + 1,
            ));
            assert(split_scan(x, nl, start, cur) == seq![x.subrange(start, cur)] + split_scan(
                x,
                nl,
                cur + 1,
                cur + 1,
            ));
            assert(seq![x.subrange(start, cur)] + split_scan(x, nl, cur + 1, cur + 1).push(y)
                =~= (seq![x.subrange(start, cur)] + split_scan(x, nl, cur + 1, cur + 1)).push(y));
        } else {
            lemma_split_scan_append(x, y, start, cur + 1);
        }
    }
}

/// Joining lines that hold no newline and splitting at newlines again
/// gives the lines back.
proof fn lemma_split_join(ls: Seq<Seq<char>>)
    requires
        ls.len() >= 1,
        forall|i: int| 0 <= i < ls.len() ==> !(#[trigger] ls[i]).contains('\n'),
    ensures
        split(join(ls, seq!['\n']), seq!['\n']) == ls,
    decreases ls.len(),
{
    let nl = seq!['\n'];
    if ls.len() == 1 {
        let l = ls[0];
        assert(!l.contains('\n'));
        assert forall|j: int| 0 <= j < l.len() implies l[j] != '\n' by {
            if l[j] == '\n' {
                assert(l.contains('\n'));
            }
        }
        lemma_split_scan_tail(l, 0, 0);
        assert(l.subrange(0, l.len() as int) =~= l);
        assert(ls =~= seq![l]);
    } else {
        let d = ls.drop_last();
        lemma_split_join(d);
        assert(!ls.last().contains('\n'));
        lemma_split_scan_append(join(d, nl), ls.last(), 0, 0);
        assert(join(ls, nl) == join(d, nl) + nl + ls.last());
        assert(d.push(ls.last()) =~= ls);
    }
}

/// `lines` gives back lines joined by newlines when none of them holds a
/// newline or ends with a carriage return, and the last one is not empty.
proof fn lemma_lines_join(ls: Seq<Seq<char>>)
    requires
        forall|i: int| 0 <= i < ls.len() ==> !(#[trigger] ls[i]).contains('\n'),
        forall|i: int| 0 <= i < ls.len() ==> strip_cr(#[trigger] ls[i]) == ls[i],
        ls.len() > 0 ==> ls.last().len() > 0,
    ensures
        lines(join(ls, seq!['\n'])) == ls,
{
    let nl = seq!['\n'];
    if ls.len() == 0 {
        let e = Seq::<char>::empty();
        assert(join(ls, nl) == e);
        lemma_split_scan_tail(e, 0, 0);
        assert(split(e, nl) == seq![e.subrange(0, 0)]);
        assert(lines(e) =~= ls);
    } else {
        lemma_split_join(ls);
        let body = ls.drop_last().map_values(|l: Seq<char>| strip_cr(l));
        assert(body =~= ls.drop_last());
        assert(body.push(ls.last()) =~= ls);
    }
}

/// Finding `=` in `k + "=" + v` where `k` has none.
proof fn lemma_split_once_entry(k: Seq<char>, v: Seq<char>)
    requires
        !k.contains('='),
    ensures
        split_once(k + seq!['='] + v, seq!['=']) == Some((k, v)),
{
    let s = k + seq!['='] + v;
    let eq = seq!['='];
    assert forall|j: int| 0 <= j < k.len() implies !match_at(s, eq, j) by {
        if match_at(s, eq, j) {
            assert(s.subrange(j, j + 1)[0] == s[j]);
            assert(s[j] == k[j]);
            assert(k.contains('='));
        }
    }
    lemma_find_skip(s, eq, 0, k.len() as int);
    assert(match_at(s, eq, k.len() as int)) by {
        assert(s.subrange(k.len() as int, k.len() + 1int) =~= eq);
    }
    assert(s.subrange(0, k.len() as int) =~= k);
    assert(s.subrange(k.len() + 1int, s.len() as int) =~= v);
}

proof fn lemma_find_skip(s: Seq<char>, p: Seq<char>, i: int, j: int)
    requires
        0 <= i <= j,
        forall|m: int| i <= m < j ==> !match_at(s, p, m),
    ensures
        find_from(s, p, i) == find_from(s, p, j) || find_from(s, p, i) is None,
        j + p.len() <= s.len() ==> find_from(s, p, i) == find_from(s, p, j),
    decreases j - i,
{
    if i < j {
        lemma_find_skip(s, p, i + 1, j);
    }
}

proof fn lemma_load_lines_entries(es: Seq<(Seq<char>, Seq<char>)>)
    requires
        forall|i: int| 0 <= i < es.len() ==> !(#[trigger] es[i]).0.contains('='),
    ensures
        load_lines(es.map_values(|e: (Seq<char>, Seq<char>)| entry_line(e))) == map_of(es),
    decreases es.len(),
{
    if es.len() > 0 {
        let d = es.drop_last();
        lemma_load_lines_entries(d);
        let ls = es.map_values(|e: (Seq<char>, Seq<char>)| entry_line(e));
        assert(ls.drop_last() =~= d.map_values(|e: (Seq<char>, Seq<char>)| entry_line(e)));
        let e = es.last();
        assert(!e.0.contains('='));
        lemma_split_once_entry(e.0, e.1);
    }
}

/// Saving a store and loading the bytes back with the same key gives the
/// same map, for every store whose entries the line format carries (ASCII
/// text, no line break, no `=` in a key, no carriage return ending a value).
pub proof fn lemma_saved_bytes_load_back(es: Seq<(Seq<char>, Seq<char>)>, key: u8)
    requires
        forall|i: int| 0 <= i < es.len() ==> entry_persists(#[trigger] es[i]),
    ensures
        loaded_map(saved_bytes(es, key), key) == map_of(es),
{
    let ls = es.map_values(|e: (Seq<char>, Seq<char>)| entry_line(e));
    let nl = seq!['\n'];
    assert forall|i: int| 0 <= i < ls.len() implies vstd::utf8::is_ascii_chars(#[trigger] ls[i])
        && !ls[i].contains('\n') && strip_cr(ls[i]) == ls[i] && ls[i].len() > 0 by {
        let e = es[i];
        assert(entry_persists(e));
        let l = e.0 + seq!['='] + e.1;
        assert(ls[i] == l);
        assert forall|j: int| 0 <= j < l.len() implies '\0' <= #[trigger] l[j] <= '\u{7f}' by {
            if j < e.0.len() {
                assert(l[j] == e.0[j]);
            } else if j > e.0.len() {
                assert(l[j] == e.1[j - e.0.len() - 1]);
            }
        }
        if l.contains('\n') {
            let j = choose|j: int| 0 <= j < l.len() && l[j] == '\n';
            if j < e.0.len() {
                assert(e.0[j] == l[j]);
                assert(e.0.contains('\n'));
            } else if j > e.0.len() {
                assert(e.1[j - e.0.len() - 1] == l[j]);
                assert(e.1.contains('\n'));
            }
        }
        if e.1.len() > 0 {
            assert(l.last() == e.1.last());
        } else {
            assert(l.last() == '=');
        }
    }
    assert(vstd::utf8::is_ascii_chars(nl));
    lemma_join_ascii(ls, nl);
    let text = serialize(es);
    assert(text == join(ls, nl));
    lemma_xor_twice(vstd::utf8::encode_utf8(text), key);
    lemma_latin1_ascii(text);
    lemma_lines_join(ls);
    assert forall|i: int| 0 <= i < es.len() implies !(#[trigger] es[i]).0.contains('=') by {
        assert(entry_persists(es[i]));
    }
    lemma_load_lines_entries(es);
}

} // verus!
