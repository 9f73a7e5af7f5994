//! Plugin manifests of the command-line program and the permission gate
//! in front of their execution.
use vstd::prelude::*;
use crate::sandbox::views;
use crate::text::{
    chars_of, find, find_index, match_at, push_str, slice_chars, split, split_chars, split_once,
    split_once_chars, str_eq, string_of, trim, trim_char, trim_char_chars, trim_chars,
};

verus! {

/// A plugin manifest: the plugin's name, its WebAssembly file and the
/// capabilities it is permitted. The permissions are a list that a parsed
/// manifest holds as a `BTreeSet<String>` would: in `String` order, each
/// once (`strictly_sorted`). A `BTreeSet<String>` is not used: vstd
/// specifies it only for key types that obey its ordering model, which
/// `String` is not granted.
#[derive(Debug, Clone)]
pub struct PluginManifest {
    pub name: String,
    pub wasm_path: String,
    pub permissions: Vec<String>,
}

/// The permissions of a manifest, as a set.
pub open spec fn permission_set(m: PluginManifest) -> Set<Seq<char>> {
    views(m.permissions@).to_set()
}

/// The value of a string field: after the first `"key"`, the first `:`,
/// the text between the next two double quotes.
pub open spec fn manifest_string_field(src: Seq<char>, key: Seq<char>) -> Option<Seq<char>> {
    match split_once(src, "\""@ + key + "\""@) {
        Some(p1) => match split_once(p1.1, ":"@) {
            Some(p2) => match find(p2.1, "\""@) {
                Some(i) => {
                    let rest = p2.1.subrange(i + 1, p2.1.len() as int);
                    match find(rest, "\""@) {
                        Some(j) => Some(rest.subrange(0, j)),
                        None => None,
                    }
                },
                None => None,
            },
            None => None,
        },
        None => None,
    }
}

/// The items of a list, each trimmed and stripped of double quotes, empty
/// ones left out.
pub open spec fn clean_items(ps: Seq<Seq<char>>) -> Seq<Seq<char>>
    decreases ps.len(),
{
    if ps.len() == 0 {
        Seq::empty()
    } else {
        let item = trim_char(trim(ps.last()), '"');
        if item.len() > 0 {
            clean_items(ps.drop_last()).push(item)
        } else {
            clean_items(ps.drop_last())
        }
    }
}

/// The items of an array field: after the first `"key"`, the text between
/// the next `[` and the following `]`, split at commas; empty when any of
/// these is missing.
pub open spec fn manifest_array_field(src: Seq<char>, key: Seq<char>) -> Seq<Seq<char>> {
    match split_once(src, "\""@ + key + "\""@) {
        Some(p1) => match split_once(p1.1, "["@) {
            Some(p2) => match split_once(p2.1, "]"@) {
                Some(p3) => clean_items(split(p3.0, ","@)),
                None => Seq::empty(),
            },
            None => Seq::empty(),
        },
        None => Seq::empty(),
    }
}

/// `a` comes before `b` in the order of `String`: at the first position
/// where they differ, `a`'s character has the lower code point, or `a` is
/// a proper prefix of `b`.
pub open spec fn seq_before(a: Seq<char>, b: Seq<char>) -> bool {
    exists|i: int| #[trigger] differs_at(a, b, i)
}

/// `a` and `b` agree before `i`, and at `i` `a` ends or has the lower
/// character while `b` goes on.
pub open spec fn differs_at(a: Seq<char>, b: Seq<char>, i: int) -> bool {
    &&& 0 <= i <= a.len()
    &&& i < b.len()
    &&& a.take(i) == b.take(i)
    &&& (i == a.len() || a[i] < b[i])
}

/// Each string comes before the next, so none occurs twice.
pub open spec fn strictly_sorted(s: Seq<Seq<char>>) -> bool {
    forall|i: int, j: int| 0 <= i < j < s.len() ==> seq_before(#[trigger] s[i], #[trigger] s[j])
}

/// Nothing comes before itself.
pub proof fn lemma_before_irreflexive(a: Seq<char>)
    ensures
        !seq_before(a, a),
{
}

/// The order is transitive.
pub proof fn lemma_before_transitive(a: Seq<char>, b: Seq<char>, c: Seq<char>)
    requires
        seq_before(a, b),
        seq_before(b, c),
    ensures
        seq_before(a, c),
{
    let i = choose|i: int| differs_at(a, b, i);
    let j = choose|j: int| differs_at(b, c, j);
    if i < j {
        assert(b.take(j).take(i) == b.take(i));
        assert(c.take(j).take(i) == c.take(i));
        assert(a.take(i) == c.take(i));
        if i < a.len() {
            assert(b.take(j)[i] == b[i]);
            assert(c.take(j)[i] == c[i]);
        }
        assert(differs_at(a, c, i));
    } else if j < i {
        assert(a.take(i).take(j) == a.take(j));
        assert(b.take(i).take(j) == b.take(j));
        assert(a.take(i)[j] == a[j]);
        assert(b.take(i)[j] == b[j]);
        assert(differs_at(a, c, j));
    } else {
        assert(differs_at(a, c, i));
    }
}

/// Where two strings differ first: negative when `a` comes first, zero
/// when they are equal, positive when `b` comes first.
pub fn compare_chars(a: &[char], b: &[char]) -> (r: i8)
    ensures
        r < 0 <==> seq_before(a@, b@),
        r == 0 <==> a@ == b@,
        r > 0 <==> seq_before(b@, a@),
{
    let n = if a.len() < b.len() {
        a.len()
    } else {
        b.len()
    };
    let mut i: usize = 0;
    while i < n && a[i] == b[i]
        invariant
            n <= a.len(),
            n <= b.len(),
            i <= n,
            a@.take(i as int) == b@.take(i as int),
        decreases n - i,
    {
        assert(a@.take(i + 1) == a@.take(i as int).push(a@[i as int]));
        assert(b@.take(i + 1) == b@.take(i as int).push(b@[i as int]));
        i += 1;
    }
    proof {
        lemma_before_irreflexive(a@);
        lemma_before_irreflexive(b@);
    }
    if i < n {
        if a[i] < b[i] {
            assert(differs_at(a@, b@, i as int));
            proof {
                if seq_before(b@, a@) {
                    lemma_before_transitive(a@, b@, a@);
                }
            }
            -1
        } else {
            assert(differs_at(b@, a@, i as int));
            proof {
                if seq_before(a@, b@) {
                    lemma_before_transitive(a@, b@, a@);
                }
            }
            assert(a@ != b@) by {
                assert(a@[i as int] != b@[i as int]);
            }
            1
        }
    } else if a.len() < b.len() {
        assert(differs_at(a@, b@, i as int));
        proof {
            if seq_before(b@, a@) {
                lemma_before_transitive(a@, b@, a@);
            }
        }
        -1
    } else if b.len() < a.len() {
        assert(differs_at(b@, a@, i as int));
        proof {
            if seq_before(a@, b@) {
                lemma_before_transitive(a@, b@, a@);
            }
        }
        1
    } else {
        assert(a@ == a@.take(i as int));
        assert(b@ == b@.take(i as int));
        0
    }
}

/// Adds `item` to a strictly sorted list of strings, in its place, unless
/// the list already holds it.
fn insert_sorted(out: &mut Vec<String>, item: String)
    requires
        strictly_sorted(views(old(out)@)),
    ensures
        strictly_sorted(views(final(out)@)),
        views(final(out)@).to_set() == views(old(out)@).to_set().insert(item@),
{
    let ghost vs = views(out@);
    let ic = chars_of(item.as_str());
    let n = out.len();
    let mut k: usize = 0;
    let mut order: i8 = -1;
    while k < n && order < 0
        invariant
            n == out@.len(),
            vs == views(out@),
            vs.len() == n,
            k <= n,
            ic@ == item@,
            order < 0 ==> forall|j: int| 0 <= j < k ==> seq_before(#[trigger] vs[j], item@),
            order >= 0 ==> k < n && forall|j: int| 0 <= j < k ==> seq_before(#[trigger] vs[j], item@),
            order == 0 ==> k < n && vs[k as int] == item@,
            order > 0 ==> k < n && seq_before(item@, vs[k as int]),
        decreases n - k, if order < 0 { 1int } else { 0int },
    {
        let oc = chars_of(out[k].as_str());
        assert(oc@ == vs[k as int]);
        order = compare_chars(oc.as_slice(), ic.as_slice());
        if order < 0 {
            k += 1;
        }
    }
    if order == 0 {
        assert(vs.to_set().insert(item@) =~= vs.to_set()) by {
            assert(vs.contains(item@));
        }
        return;
    }
    proof {
        assert forall|j: int| k <= j < n implies seq_before(item@, #[trigger] vs[j]) by {
            if j > k {
                assert(seq_before(vs[k as int], vs[j]));
                lemma_before_transitive(item@, vs[k as int], vs[j]);
            }
        }
    }
    out.insert(k, item);
    let ghost ws = vs.insert(k as int, ic@);
    assert(views(out@) =~= ws);
    assert(strictly_sorted(ws)) by {
        assert forall|i: int, j: int| 0 <= i < j < ws.len() implies seq_before(#[trigger] ws[i], #[trigger] ws[j]) by {
            if j < k {
                assert(ws[i] == vs[i] && ws[j] == vs[j]);
            } else if j == k {
                assert(ws[i] == vs[i]);
            } else if i < k {
                assert(ws[i] == vs[i] && ws[j] == vs[j - 1]);
                assert(seq_before(vs[i], item@));
                assert(seq_before(item@, vs[j - 1]));
                lemma_before_transitive(vs[i], item@, vs[j - 1]);
            } else if i == k {
                assert(ws[j] == vs[j - 1]);
            } else {
                assert(ws[i] == vs[i - 1] && ws[j] == vs[j - 1]);
            }
        }
    }
    assert(ws.to_set() =~= vs.to_set().insert(item@)) by {
        assert forall|x: Seq<char>| ws.contains(x) implies vs.to_set().insert(item@).contains(x) by {
            let i = choose|i: int| 0 <= i < ws.len() && ws[i] == x;
            if i < k {
                assert(vs[i] == x);
            } else if i > k {
                assert(vs[i - 1] == x);
            }
        }
        assert forall|x: Seq<char>| vs.to_set().insert(item@).contains(x) implies ws.contains(x) by {
            if x == item@ {
                assert(ws[k as int] == x);
            } else {
                let i = choose|i: int| 0 <= i < vs.len() && vs[i] == x;
                if i < k {
                    assert(ws[i] == x);
                } else {
                    assert(ws[i + 1] == x);
                }
            }
        }
    }
}

/// The strings in their `String` order, each once: what collecting them
/// into a `BTreeSet` holds.
pub fn sorted_unique(items: Vec<String>) -> (r: Vec<String>)
    ensures
        strictly_sorted(views(r@)),
        views(r@).to_set() == views(items@).to_set(),
{
    let mut out: Vec<String> = Vec::new();
    let n = items.len();
    let ghost iv = views(items@);
    for i in 0..n
        invariant
            n == items@.len(),
            iv == views(items@),
            strictly_sorted(views(out@)),
            views(out@).to_set() == iv.take(i as int).to_set(),
    {
        insert_sorted(&mut out, items[i].clone());
        assert(iv.take(i + 1) == iv.take(i as int).push(iv[i as int]));
        proof {
            iv.take(i as int).lemma_push_to_set_commute(iv[i as int]);
        }
    }
    assert(iv.take(n as int) == iv);
    out
}

/// The string field `key` of a manifest text.
pub fn extract_json_string(src: &str, key: &str) -> (r: Option<String>)
    ensures
        r matches Some(v) ==> manifest_string_field(src@, key@) == Some(v@),
        r is None ==> manifest_string_field(src@, key@) is None,
{
    let cs = chars_of(src);
    let mut token = chars_of("\"");
    push_str(&mut token, key);
    push_str(&mut token, "\"");
    let colon = chars_of(":");
    let quote = chars_of("\"");
    let p1 = split_once_chars(cs.as_slice(), token.as_slice())?;
    let p2 = split_once_chars(p1.1.as_slice(), colon.as_slice())?;
    let i = find_index(p2.1.as_slice(), quote.as_slice())?;
    proof {
        crate::text::lemma_find_from_bounds(p2.1@, quote@, 0);
        reveal_strlit("\"");
    }
    assert(match_at(p2.1@, quote@, i as int));
    assert(quote@.len() == 1);
    assert(p2.1.len() == p2.1@.len());
    let rest = slice_chars(p2.1.as_slice(), i + 1, p2.1.len());
    let j = find_index(rest.as_slice(), quote.as_slice())?;
    proof {
        crate::text::lemma_find_from_bounds(rest@, quote@, 0);
    }
    Some(string_of(slice_chars(rest.as_slice(), 0, j).as_slice()))
}

/// The array field `key` of a manifest text.
pub fn extract_json_array(src: &str, key: &str) -> (r: Vec<String>)
    ensures
        r@.map_values(|s: String| s@) == manifest_array_field(src@, key@),
{
    let cs = chars_of(src);
    let mut token = chars_of("\"");
    push_str(&mut token, key);
    push_str(&mut token, "\"");
    let open = chars_of("[");
    let close = chars_of("]");
    let comma = chars_of(",");
    proof {
        reveal_strlit(",");
    }
    let p1 = match split_once_chars(cs.as_slice(), token.as_slice()) {
        Some(p) => p,
        None => {
            return Vec::new();
        },
    };
    let p2 = match split_once_chars(p1.1.as_slice(), open.as_slice()) {
        Some(p) => p,
        None => {
            return Vec::new();
        },
    };
    let p3 = match split_once_chars(p2.1.as_slice(), close.as_slice()) {
        Some(p) => p,
        None => {
            return Vec::new();
        },
    };
    let parts = split_chars(p3.0.as_slice(), comma.as_slice());
    let ghost pv = split(p3.0@, ","@);
    let mut out: Vec<String> = Vec::new();
    let n = parts.len();
    for i in 0..n
        invariant
            n == parts@.len(),
            n == pv.len(),
            forall|k: int| 0 <= k < n ==> #[trigger] parts@[k]@ == pv[k],
            out@.map_values(|s: String| s@) == clean_items(pv.take(i as int)),
    {
        let ghost before = out@.map_values(|s: String| s@);
        assert(pv.take(i + 1).drop_last() == pv.take(i as int));
        assert(pv.take(i + 1).last() == parts@[i as int]@);
        let t = trim_chars(parts[i].as_slice());
        let item = trim_char_chars(t.as_slice(), '"');
        if item.len() > 0 {
            let s = string_of(item.as_slice());
            out.push(s);
            assert(out@.map_values(|s: String| s@) == before.push(item@));
        }
    }
    assert(pv.take(n as int) == pv);
    out
}

/// What running `capability` of a plugin gives: a refusal when the
/// manifest does not permit it, an error when the plugin's file is
/// missing, and 0 otherwise.
pub open spec fn execute_result(m: PluginManifest, capability: Seq<char>, wasm_file_exists: bool) -> Result<
    i32,
    Seq<char>,
> {
    if !permission_set(m).contains(capability) {
        Err("permission denied for "@ + capability + " in plugin "@ + m.name@)
    } else if !wasm_file_exists {
        Err("plugin wasm file missing for "@ + m.name@)
    } else {
        Ok(0)
    }
}

/// The sandbox that gates plugin execution on manifest permissions.
pub struct WasmSandbox;

impl WasmSandbox {
    /// Reads a manifest text: the name and WebAssembly path are required,
    /// the permissions default to none and are kept in `String` order,
    /// each once.
    pub fn parse_manifest(src: &str) -> (r: Result<PluginManifest, String>)
        ensures
            manifest_string_field(src@, "name"@) is None ==> (r matches Err(e) && e@ == "name missing"@),
            manifest_string_field(src@, "name"@) is Some && manifest_string_field(src@, "wasm_path"@) is None
                ==> (r matches Err(e) && e@ == "wasm_path missing"@),
            manifest_string_field(src@, "name"@) is Some && manifest_string_field(src@, "wasm_path"@) is Some
                ==> (r matches Ok(m) && Some(m.name@) == manifest_string_field(src@, "name"@)
                && Some(m.wasm_path@) == manifest_string_field(src@, "wasm_path"@)
                && permission_set(m) == manifest_array_field(src@, "permissions"@).to_set()
                && strictly_sorted(views(m.permissions@))),
    {
        let name = match extract_json_string(src, "name") {
            Some(n) => n,
            None => {
                return Err(String::from_str("name missing"));
            },
        };
        let wasm_path = match extract_json_string(src, "wasm_path") {
            Some(p) => p,
            None => {
                return Err(String::from_str("wasm_path missing"));
            },
        };
        let items = extract_json_array(src, "permissions");
        assert(views(items@) == manifest_array_field(src@, "permissions"@));
        let permissions = sorted_unique(items);
        Ok(PluginManifest { name, wasm_path, permissions })
    }

    /// Whether the manifest permits `capability`.
    pub fn permits(manifest: &PluginManifest, capability: &str) -> (r: bool)
        ensures
            r == permission_set(*manifest).contains(capability@),
    {
        let n = manifest.permissions.len();
        for i in 0..n
            invariant
                n == manifest.permissions@.len(),
                forall|k: int| 0 <= k < i ==> manifest.permissions@[k]@ != capability@,
        {
            if str_eq(manifest.permissions[i].as_str(), capability) {
                assert(manifest.permissions@.map_values(|p: String| p@)[i as int] == capability@);
                return true;
            }
        }
        let ghost views = manifest.permissions@.map_values(|p: String| p@);
        assert(!views.contains(capability@)) by {
            if views.contains(capability@) {
                let k = choose|k: int| 0 <= k < views.len() && #[trigger] views[k] == capability@;
                assert(manifest.permissions@[k]@ == capability@);
            }
        }
        false
    }

    /// Decides whether a plugin capability may run: the manifest must
    /// permit it and the plugin's WebAssembly file must exist. No plugin
    /// code is run here; an allowed capability gives 0.
    pub fn execute(&self, manifest: &PluginManifest, capability: &str, wasm_file_exists: bool) -> (r: Result<i32, String>)
        ensures
            match execute_result(*manifest, capability@, wasm_file_exists) {
                Ok(v) => r == Ok::<i32, String>(v),
                Err(m) => r matches Err(e) && e@ == m,
            },
    {
        if !WasmSandbox::permits(manifest, capability) {
            let mut e = chars_of("permission denied for ");
            push_str(&mut e, capability);
            push_str(&mut e, " in plugin ");
            push_str(&mut e, manifest.name.as_str());
            return Err(string_of(e.as_slice()));
        }
        if !wasm_file_exists {
            let mut e = chars_of("plugin wasm file missing for ");
            push_str(&mut e, manifest.name.as_str());
            return Err(string_of(e.as_slice()));
        }
        Ok(0)
    }
}

} // verus!
