//! Character-level text operations with their mathematical meaning.
//!
//! Text is modelled as `Seq<char>`, the view of `String` and `&str`.
//! Each executable routine works on a slice of characters and is proved
//! to compute the spec function of the same name.
use vstd::prelude::*;

verus! {

broadcast use vstd::slice::group_slice_axioms;

// ---------------------------------------------------------------------
// Specifications
// ---------------------------------------------------------------------

/// The Unicode `White_Space` property, which `char::is_whitespace`
/// implements.
pub open spec fn is_ws(c: char) -> bool {
    let u = c as u32;
    ||| 0x09 <= u <= 0x0D
    ||| u == 0x20
    ||| u == 0x85
    ||| u == 0xA0
    ||| u == 0x1680
    ||| 0x2000 <= u <= 0x200A
    ||| u == 0x2028
    ||| u == 0x2029
    ||| u == 0x202F
    ||| u == 0x205F
    ||| u == 0x3000
}

pub open spec fn is_ascii_digit(c: char) -> bool {
    '0' <= c <= '9'
}

/// `s` with its leading white space removed.
pub open spec fn trim_start(s: Seq<char>) -> Seq<char>
    decreases s.len(),
{
    if s.len() > 0 && is_ws(s[0]) {
        trim_start(s.drop_first())
    } else {
        s
    }
}

/// `s` with its trailing white space removed.
pub open spec fn trim_end(s: Seq<char>) -> Seq<char>
    decreases s.len(),
{
    if s.len() > 0 && is_ws(s.last()) {
        trim_end(s.drop_last())
    } else {
        s
    }
}

/// `s` with white space removed at both ends.
pub open spec fn trim(s: Seq<char>) -> Seq<char> {
    trim_end(trim_start(s))
}

/// `s` with every leading `c` removed.
pub open spec fn strip_start_char(s: Seq<char>, c: char) -> Seq<char>
    decreases s.len(),
{
    if s.len() > 0 && s[0] == c {
        strip_start_char(s.drop_first(), c)
    } else {
        s
    }
}

/// `s` with every trailing `c` removed.
pub open spec fn strip_end_char(s: Seq<char>, c: char) -> Seq<char>
    decreases s.len(),
{
    if s.len() > 0 && s.last() == c {
        strip_end_char(s.drop_last(), c)
    } else {
        s
    }
}

/// `s` with every `c` removed at both ends (`str::trim_matches` with a
/// `char` pattern).
pub open spec fn trim_char(s: Seq<char>, c: char) -> Seq<char> {
    strip_end_char(strip_start_char(s, c), c)
}

pub open spec fn starts_with(s: Seq<char>, p: Seq<char>) -> bool {
    p.len() <= s.len() && s.subrange(0, p.len() as int) == p
}

/// `p` occurs in `s` at position `i`.
pub open spec fn match_at(s: Seq<char>, p: Seq<char>, i: int) -> bool {
    0 <= i && i + p.len() <= s.len() && s.subrange(i, i + p.len()) == p
}

/// The first position at or after `i` where `p` occurs in `s`.
pub open spec fn find_from(s: Seq<char>, p: Seq<char>, i: int) -> Option<int>
    decreases s.len() + 1 - i,
{
    if i < 0 || i + p.len() > s.len() {
        None
    } else if match_at(s, p, i) {
        Some(i)
    } else {
        find_from(s, p, i + 1)
    }
}

/// The first position where `p` occurs in `s`.
pub open spec fn find(s: Seq<char>, p: Seq<char>) -> Option<int> {
    find_from(s, p, 0)
}

pub open spec fn contains(s: Seq<char>, p: Seq<char>) -> bool {
    find(s, p) is Some
}

/// `str::split_once`: the text before and after the first `p`.
pub open spec fn split_once(s: Seq<char>, p: Seq<char>) -> Option<(Seq<char>, Seq<char>)> {
    match find(s, p) {
        Some(i) => Some((s.subrange(0, i), s.subrange(i + p.len(), s.len() as int))),
        None => None,
    }
}

/// The pieces of `s[start..]` between the non-overlapping occurrences of
/// a non-empty `p`, scanning from the left; the current piece started at
/// `start` and the scan stands at `cur`.
pub open spec fn split_scan(s: Seq<char>, p: Seq<char>, start: int, cur: int) -> Seq<Seq<char>>
    recommends
        p.len() > 0,
        0 <= start <= cur,
    decreases s.len() - cur,
{
    if p.len() == 0 || cur < start || start < 0 || cur + p.len() > s.len() {
        seq![s.subrange(start, s.len() as int)]
    } else if match_at(s, p, cur) {
        seq![s.subrange(start, cur)] + split_scan(s, p, cur + p.len(), cur + p.len())
    } else {
        split_scan(s, p, start, cur + 1)
    }
}

/// `str::split` with a non-empty pattern.
pub open spec fn split(s: Seq<char>, p: Seq<char>) -> Seq<Seq<char>> {
    split_scan(s, p, 0, 0)
}

/// `l` without one trailing carriage return.
pub open spec fn strip_cr(l: Seq<char>) -> Seq<char> {
    if l.len() > 0 && l.last() == '\r' {
        l.drop_last()
    } else {
        l
    }
}

/// `str::lines`: split at `\n`, drop the carriage return of each `\r\n`,
/// and give no final empty line.
pub open spec fn lines(s: Seq<char>) -> Seq<Seq<char>> {
    let pieces = split(s, seq!['\n']);
    let body = pieces.drop_last().map_values(|l: Seq<char>| strip_cr(l));
    if pieces.last().len() == 0 {
        body
    } else {
        body.push(pieces.last())
    }
}

/// `s` with every `c` replaced by `r`.
pub open spec fn replace_char(s: Seq<char>, c: char, r: Seq<char>) -> Seq<char>
    decreases s.len(),
{
    if s.len() == 0 {
        s
    } else {
        replace_char(s.drop_last(), c, r) + (if s.last() == c {
            r
        } else {
            seq![s.last()]
        })
    }
}

/// The parts joined with `sep` between consecutive parts.
pub open spec fn join(parts: Seq<Seq<char>>, sep: Seq<char>) -> Seq<char>
    decreases parts.len(),
{
    if parts.len() == 0 {
        Seq::empty()
    } else if parts.len() == 1 {
        parts[0]
    } else {
        join(parts.drop_last(), sep) + sep + parts.last()
    }
}

/// The pieces of `s` between single white-space characters (empty pieces
/// included).
pub open spec fn ws_pieces(s: Seq<char>) -> Seq<Seq<char>>
    decreases s.len(),
{
    if s.len() == 0 {
        seq![Seq::empty()]
    } else {
        let p = ws_pieces(s.drop_last());
        if is_ws(s.last()) {
            p.push(Seq::empty())
        } else {
            p.drop_last().push(p.last().push(s.last()))
        }
    }
}

/// The non-empty pieces, in order.
pub open spec fn keep_nonempty(ps: Seq<Seq<char>>) -> Seq<Seq<char>>
    decreases ps.len(),
{
    if ps.len() == 0 {
        ps
    } else if ps.last().len() > 0 {
        keep_nonempty(ps.drop_last()).push(ps.last())
    } else {
        keep_nonempty(ps.drop_last())
    }
}

/// The white-space separated words of `s` (`str::split_whitespace`).
pub open spec fn words(s: Seq<char>) -> Seq<Seq<char>> {
    keep_nonempty(ws_pieces(s))
}

/// The longest prefix of `s` whose characters are all ASCII digits.
pub open spec fn digit_prefix_len(s: Seq<char>, i: int) -> int
    decreases s.len() - i,
{
    if i < 0 || i >= s.len() || !is_ascii_digit(s[i]) {
        i
    } else {
        digit_prefix_len(s, i + 1)
    }
}

// ---------------------------------------------------------------------
// Lemmas
// ---------------------------------------------------------------------

pub proof fn lemma_find_from_bounds(s: Seq<char>, p: Seq<char>, i: int)
    requires
        0 <= i,
    ensures
        find_from(s, p, i) matches Some(k) ==> i <= k && match_at(s, p, k) && forall|j: int|
            i <= j < k ==> !match_at(s, p, j),
        find_from(s, p, i) is None ==> forall|j: int| i <= j ==> !match_at(s, p, j),
    decreases s.len() + 1 - i,
{
    if i < 0 || i + p.len() > s.len() {
    } else if match_at(s, p, i) {
    } else {
        lemma_find_from_bounds(s, p, i + 1);
    }
}

/// A one-character pattern occurs exactly where that character stands.
pub proof fn lemma_match_at_char(s: Seq<char>, c: char, j: int)
    ensures
        match_at(s, seq![c], j) <==> (0 <= j < s.len() && s[j] == c),
{
    if 0 <= j < s.len() {
        if s[j] == c {
            assert(s.subrange(j, j + 1) =~= seq![c]);
        } else {
            assert(s.subrange(j, j + 1)[0] == s[j]);
        }
    }
}

/// Splitting at a character splits at its first occurrence, and the
/// text before it does not hold the character.
pub proof fn lemma_split_once_char(s: Seq<char>, c: char, k: int)
    requires
        0 <= k <= s.len(),
        forall|i: int| 0 <= i < k ==> s[i] != c,
        k < s.len() ==> s[k] == c,
    ensures
        k < s.len() ==> split_once(s, seq![c]) == Some((s.subrange(0, k), s.subrange(k + 1, s.len() as int))),
        k == s.len() ==> split_once(s, seq![c]) is None,
{
    lemma_find_from_bounds(s, seq![c], 0);
    lemma_match_at_char(s, c, k);
    match find_from(s, seq![c], 0) {
        Some(f) => {
            lemma_match_at_char(s, c, f);
            if f < k {
                assert(s[f] != c);
            }
            if k < f {
                assert(!match_at(s, seq![c], k));
            }
        },
        None => {},
    }
}

/// The text before the first occurrence of a character does not hold it.
pub proof fn lemma_split_once_char_before(s: Seq<char>, c: char)
    ensures
        split_once(s, seq![c]) matches Some(parts) ==> forall|i: int|
            0 <= i < parts.0.len() ==> parts.0[i] != c,
{
    lemma_find_from_bounds(s, seq![c], 0);
    if let Some(k) = find_from(s, seq![c], 0) {
        assert forall|i: int| 0 <= i < k implies s[i] != c by {
            lemma_match_at_char(s, c, i);
        }
    }
}

/// Replacing a character by one character keeps the length and changes
/// exactly the positions that held it.
pub proof fn lemma_replace_char_by_char(s: Seq<char>, c: char, d: char)
    ensures
        replace_char(s, c, seq![d]).len() == s.len(),
        forall|i: int|
            0 <= i < s.len() ==> #[trigger] replace_char(s, c, seq![d])[i] == (if s[i] == c {
                d
            } else {
                s[i]
            }),
    decreases s.len(),
{
    if s.len() > 0 {
        let t = s.drop_last();
        lemma_replace_char_by_char(t, c, d);
        let r = replace_char(s, c, seq![d]);
        let last = if s.last() == c {
            seq![d]
        } else {
            seq![s.last()]
        };
        assert(r == replace_char(t, c, seq![d]) + last);
        assert forall|i: int| 0 <= i < s.len() implies #[trigger] r[i] == (if s[i] == c {
            d
        } else {
            s[i]
        }) by {
            if i < t.len() {
                assert(r[i] == replace_char(t, c, seq![d])[i]);
                assert(s[i] == t[i]);
            }
        }
    }
}

/// Splitting at a character: the first piece runs up to the first
/// occurrence, and without one the whole text is the only piece.
pub proof fn lemma_split_first_piece(s: Seq<char>, c: char, cur: int, k: int)
    requires
        0 <= cur <= k <= s.len(),
        forall|i: int| cur <= i < k ==> s[i] != c,
        k < s.len() ==> s[k] == c,
    ensures
        k < s.len() ==> split_scan(s, seq![c], 0, cur) == seq![s.subrange(0, k)] + split_scan(
            s,
            seq![c],
            k + 1,
            k + 1,
        ),
        k == s.len() ==> split_scan(s, seq![c], 0, cur) == seq![s],
    decreases k - cur,
{
    lemma_match_at_char(s, c, cur);
    if cur + 1 > s.len() {
        assert(s.subrange(0, s.len() as int) =~= s);
    } else if cur < k {
        lemma_split_first_piece(s, c, cur + 1, k);
    }
}

/// The first line of a text is the text up to the first line break, less
/// a carriage return before it.
pub proof fn lemma_first_line(line: Seq<char>, rest: Seq<char>)
    requires
        forall|i: int| 0 <= i < line.len() ==> line[i] != '\n',
        line.len() > 0,
    ensures
        lines(line).len() == 1,
        lines(line)[0] == line,
        lines(line + seq!['\n'] + rest).len() >= 1,
        lines(line + seq!['\n'] + rest)[0] == strip_cr(line),
{
    let k = line.len() as int;
    lemma_split_first_piece(line, '\n', 0, k);
    assert(split(line, seq!['\n']) == seq![line]);
    assert(seq![line].drop_last() =~= Seq::<Seq<char>>::empty());
    let src = line + seq!['\n'] + rest;
    assert forall|i: int| 0 <= i < k implies src[i] != '\n' by {
        assert(src[i] == line[i]);
    }
    assert(src[k] == '\n');
    lemma_split_first_piece(src, '\n', 0, k);
    assert(src.subrange(0, k) =~= line);
    let pieces = split(src, seq!['\n']);
    lemma_split_scan_nonempty(src, seq!['\n'], k + 1, k + 1);
    assert(pieces.len() >= 2);
    assert(pieces[0] == line);
    assert(pieces.drop_last()[0] == line);
}

pub proof fn lemma_split_scan_nonempty(s: Seq<char>, p: Seq<char>, start: int, cur: int)
    ensures
        split_scan(s, p, start, cur).len() >= 1,
    decreases s.len() - cur,
{
    if p.len() == 0 || cur < start || start < 0 || cur + p.len() > s.len() {
    } else if match_at(s, p, cur) {
        lemma_split_scan_nonempty(s, p, cur + p.len(), cur + p.len());
    } else {
        lemma_split_scan_nonempty(s, p, start, cur + 1);
    }
}

// ---------------------------------------------------------------------
// Conversions between strings and character vectors
// ---------------------------------------------------------------------

/// The characters of `s`, in order.
pub fn chars_of(s: &str) -> (r: Vec<char>)
    ensures
        r@ == s@,
{
    let mut r: Vec<char> = Vec::new();
    for c in it: s.chars()
        invariant
            r@ == it.seq().take(it.index() as int),
    {
        r.push(c);
    }
    r
}

/// Appends `c` to `s` by `String::push`; the contract claims that the
/// characters of `s` grow by exactly `c`, as the method's documentation
/// says.
#[verifier::external_body]
pub(crate) fn push_char(s: &mut String, c: char)
    ensures
        final(s)@ == old(s)@.push(c),
{
    s.push(c);
}

/// The string made of the characters of `v`.
pub fn string_of(v: &[char]) -> (r: String)
    ensures
        r@ == v@,
{
    let mut r = String::new();
    for i in 0..v.len()
        invariant
            r@ == v@.take(i as int),
    {
        push_char(&mut r, v[i]);
        assert(v@.take(i + 1) == v@.take(i as int).push(v@[i as int]));
    }
    assert(v@.take(v.len() as int) == v@);
    r
}

/// Appends the characters of `t` to `out`.
pub fn push_all(out: &mut Vec<char>, t: &[char])
    ensures
        final(out)@ == old(out)@ + t@,
{
    let ghost start = out@;
    for i in 0..t.len()
        invariant
            out@ == start + t@.take(i as int),
    {
        out.push(t[i]);
        assert(t@.take(i + 1) == t@.take(i as int).push(t@[i as int]));
    }
    assert(t@.take(t.len() as int) == t@);
}

/// Appends the characters of `t` to `out`.
pub fn push_str(out: &mut Vec<char>, t: &str)
    ensures
        final(out)@ == old(out)@ + t@,
{
    let v = chars_of(t);
    push_all(out, v.as_slice());
}

/// The characters `s[a..b]`.
pub fn slice_chars(s: &[char], a: usize, b: usize) -> (r: Vec<char>)
    requires
        a <= b <= s@.len(),
    ensures
        r@ == s@.subrange(a as int, b as int),
{
    let mut r: Vec<char> = Vec::new();
    let mut i = a;
    while i < b
        invariant
            a <= i <= b <= s@.len(),
            r@ == s@.subrange(a as int, i as int),
        decreases b - i,
    {
        r.push(s[i]);
        assert(s@.subrange(a as int, i + 1) == s@.subrange(a as int, i as int).push(s@[i as int]));
        i += 1;
    }
    r
}

/// Whether the two character sequences are equal.
pub fn chars_eq(a: &[char], b: &[char]) -> (r: bool)
    ensures
        r == (a@ == b@),
{
    if a.len() != b.len() {
        return false;
    }
    for i in 0..a.len()
        invariant
            a@.len() == b@.len(),
            forall|j: int| 0 <= j < i ==> a@[j] == b@[j],
    {
        if a[i] != b[i] {
            return false;
        }
    }
    assert(a@ == b@);
    true
}

/// Whether the two strings hold the same characters.
pub(crate) fn str_eq(a: &str, b: &str) -> (r: bool)
    ensures
        r == (a@ == b@),
{
    let ca = chars_of(a);
    let cb = chars_of(b);
    chars_eq(ca.as_slice(), cb.as_slice())
}

// ---------------------------------------------------------------------
// Character classes
// ---------------------------------------------------------------------

/// `char::is_whitespace`.
pub fn is_whitespace(c: char) -> (r: bool)
    ensures
        r == is_ws(c),
{
    let u = c as u32;
    (0x09 <= u && u <= 0x0D) || u == 0x20 || u == 0x85 || u == 0xA0 || u == 0x1680 || (0x2000 <= u
        && u <= 0x200A) || u == 0x2028 || u == 0x2029 || u == 0x202F || u == 0x205F || u == 0x3000
}

// ---------------------------------------------------------------------
// Trimming
// ---------------------------------------------------------------------

/// Index of the first character of `trim_start(s)`.
pub fn trim_start_index(s: &[char]) -> (r: usize)
    ensures
        r <= s@.len(),
        trim_start(s@) == s@.subrange(r as int, s@.len() as int),
{
    let mut i: usize = 0;
    assert(s@.subrange(0, s@.len() as int) == s@);
    while i < s.len() && is_whitespace(s[i])
        invariant
            i <= s@.len(),
            trim_start(s@) == trim_start(s@.subrange(i as int, s@.len() as int)),
        decreases s@.len() - i,
    {
        assert(s@.subrange(i as int, s@.len() as int).drop_first() == s@.subrange(
            i + 1,
            s@.len() as int,
        ));
        i += 1;
    }
    proof {
        r_trim_start_stop(s@, i as int);
    }
    i
}

proof fn r_trim_start_stop(s: Seq<char>, i: int)
    requires
        0 <= i <= s.len(),
        i == s.len() || !is_ws(s[i]),
    ensures
        trim_start(s.subrange(i, s.len() as int)) == s.subrange(i, s.len() as int),
{
}

/// Index just past the last character of `trim_end(s[..n])`.
pub fn trim_end_index(s: &[char], n: usize) -> (r: usize)
    requires
        n <= s@.len(),
    ensures
        r <= n,
        trim_end(s@.subrange(0, n as int)) == s@.subrange(0, r as int),
{
    let mut j: usize = n;
    while j > 0 && is_whitespace(s[j - 1])
        invariant
            j <= n <= s@.len(),
            trim_end(s@.subrange(0, n as int)) == trim_end(s@.subrange(0, j as int)),
        decreases j,
    {
        assert(s@.subrange(0, j as int).drop_last() == s@.subrange(0, j - 1));
        j -= 1;
    }
    j
}

/// `str::trim`.
pub fn trim_chars(s: &[char]) -> (r: Vec<char>)
    ensures
        r@ == trim(s@),
{
    let a = trim_start_index(s);
    let t = slice_chars(s, a, s.len());
    let b = trim_end_index(t.as_slice(), t.len());
    assert(t@.subrange(0, t@.len() as int) == t@);
    slice_chars(t.as_slice(), 0, b)
}

/// `str::trim_start`.
pub fn trim_start_chars(s: &[char]) -> (r: Vec<char>)
    ensures
        r@ == trim_start(s@),
{
    let a = trim_start_index(s);
    slice_chars(s, a, s.len())
}

/// `str::trim_matches` with a `char` pattern.
pub fn trim_char_chars(s: &[char], c: char) -> (r: Vec<char>)
    ensures
        r@ == trim_char(s@, c),
{
    let mut i: usize = 0;
    assert(s@.subrange(0, s@.len() as int) == s@);
    while i < s.len() && s[i] == c
        invariant
            i <= s@.len(),
            strip_start_char(s@, c) == strip_start_char(s@.subrange(i as int, s@.len() as int), c),
        decreases s@.len() - i,
    {
        assert(s@.subrange(i as int, s@.len() as int).drop_first() == s@.subrange(
            i + 1,
            s@.len() as int,
        ));
        i += 1;
    }
    let t = slice_chars(s, i, s.len());
    assert(strip_start_char(t@, c) == t@);
    let mut j: usize = t.len();
    assert(t@.subrange(0, t@.len() as int) == t@);
    while j > 0 && t[j - 1] == c
        invariant
            j <= t@.len(),
            strip_end_char(t@, c) == strip_end_char(t@.subrange(0, j as int), c),
        decreases j,
    {
        assert(t@.subrange(0, j as int).drop_last() == t@.subrange(0, j - 1));
        j -= 1;
    }
    slice_chars(t.as_slice(), 0, j)
}

// ---------------------------------------------------------------------
// Searching and splitting
// ---------------------------------------------------------------------

/// `str::starts_with`.
pub fn starts_with_chars(s: &[char], p: &[char]) -> (r: bool)
    ensures
        r == starts_with(s@, p@),
{
    let r = matches_at(s, p, 0);
    assert(r == starts_with(s@, p@));
    r
}

/// `str::trim` of a string.
pub fn trim_str(s: &str) -> (r: String)
    ensures
        r@ == trim(s@),
{
    let cs = chars_of(s);
    let t = trim_chars(cs.as_slice());
    string_of(t.as_slice())
}

/// Whether `p` occurs in `s` at `i`.
pub fn matches_at(s: &[char], p: &[char], i: usize) -> (r: bool)
    ensures
        r == match_at(s@, p@, i as int),
{
    if i > s.len() || p.len() > s.len() - i {
        return false;
    }
    let n = p.len();
    for k in 0..n
        invariant
            n == p@.len(),
            s.len() == s@.len(),
            i <= s@.len(),
            i + p@.len() <= s@.len(),
            forall|j: int| 0 <= j < k ==> s@[i + j] == p@[j],
    {
        if s[i + k] != p[k] {
            assert(s@.subrange(i as int, i + p@.len())[k as int] != p@[k as int]);
            return false;
        }
    }
    assert(s@.subrange(i as int, i + p@.len()) == p@);
    true
}

/// The first position at or after `i` where `p` occurs in `s`.
pub fn find_from_index(s: &[char], p: &[char], i: usize) -> (r: Option<usize>)
    ensures
        r matches Some(k) ==> find_from(s@, p@, i as int) == Some(k as int),
        r is None ==> find_from(s@, p@, i as int) is None,
{
    if i > s.len() || p.len() > s.len() - i {
        return None;
    }
    if p.len() == 0 {
        assert(s@.subrange(i as int, i as int) == p@);
        return Some(i);
    }
    let mut j = i;
    while j <= s.len() && p.len() <= s.len() - j
        invariant
            i <= j,
            p@.len() > 0,
            s.len() == s@.len(),
            p.len() == p@.len(),
            find_from(s@, p@, i as int) == find_from(s@, p@, j as int),
        decreases s@.len() - j,
    {
        if matches_at(s, p, j) {
            return Some(j);
        }
        j += 1;
    }
    None
}

/// `str::find`.
pub fn find_index(s: &[char], p: &[char]) -> (r: Option<usize>)
    ensures
        r matches Some(k) ==> find(s@, p@) == Some(k as int),
        r is None ==> find(s@, p@) is None,
{
    find_from_index(s, p, 0)
}

/// `str::contains`.
pub fn contains_chars(s: &[char], p: &[char]) -> (r: bool)
    ensures
        r == contains(s@, p@),
{
    find_index(s, p).is_some()
}

/// `str::split_once`.
pub fn split_once_chars(s: &[char], p: &[char]) -> (r: Option<(Vec<char>, Vec<char>)>)
    ensures
        r matches Some(pair) ==> split_once(s@, p@) == Some((pair.0@, pair.1@)),
        r is None ==> split_once(s@, p@) is None,
{
    match find_index(s, p) {
        Some(i) => {
            proof {
                lemma_find_from_bounds(s@, p@, 0);
            }
            assert(match_at(s@, p@, i as int));
            assert(i + p@.len() <= s@.len() && p.len() == p@.len() && s.len() == s@.len());
            let a = slice_chars(s, 0, i);
            let b = slice_chars(s, i + p.len(), s.len());
            Some((a, b))
        },
        None => None,
    }
}

/// `str::split` with a non-empty pattern.
pub fn split_chars(s: &[char], p: &[char]) -> (r: Vec<Vec<char>>)
    requires
        p@.len() > 0,
    ensures
        r@.len() == split(s@, p@).len(),
        forall|k: int| 0 <= k < r@.len() ==> #[trigger] r@[k]@ == split(s@, p@)[k],
{
    let mut out: Vec<Vec<char>> = Vec::new();
    let mut start: usize = 0;
    let mut cur: usize = 0;
    while p.len() <= s.len() - cur
        invariant
            p@.len() > 0,
            start <= cur <= s@.len(),
            forall|k: int| 0 <= k < out@.len() ==> #[trigger] out@[k]@ == split(s@, p@)[k],
            split(s@, p@) == out@.map_values(|v: Vec<char>| v@) + split_scan(
                s@,
                p@,
                start as int,
                cur as int,
            ),
        decreases s@.len() - cur,
    {
        if matches_at(s, p, cur) {
            let piece = slice_chars(s, start, cur);
            let ghost before = out@.map_values(|v: Vec<char>| v@);
            out.push(piece);
            assert(out@.map_values(|v: Vec<char>| v@) == before.push(piece@));
            assert(before + split_scan(s@, p@, start as int, cur as int) == before.push(piece@)
                + split_scan(s@, p@, (cur + p.len()) as int, (cur + p.len()) as int));
            cur = cur + p.len();
            start = cur;
            assert(start <= s@.len());
        } else {
            cur += 1;
        }
    }
    let piece = slice_chars(s, start, s.len());
    let ghost before = out@.map_values(|v: Vec<char>| v@);
    out.push(piece);
    assert(out@.map_values(|v: Vec<char>| v@) == before.push(piece@));
    assert(split(s@, p@) == before.push(piece@));
    assert forall|k: int| 0 <= k < out@.len() implies #[trigger] out@[k]@ == split(s@, p@)[k] by {
        assert(out@.map_values(|v: Vec<char>| v@)[k] == out@[k]@);
    }
    out
}

/// `str::replace` of a `char` by a string.
pub fn replace_char_chars(s: &[char], c: char, r: &[char]) -> (out: Vec<char>)
    ensures
        out@ == replace_char(s@, c, r@),
{
    let mut out: Vec<char> = Vec::new();
    for i in 0..s.len()
        invariant
            out@ == replace_char(s@.take(i as int), c, r@),
    {
        assert(s@.take(i + 1).drop_last() == s@.take(i as int));
        if s[i] == c {
            push_all(&mut out, r);
        } else {
            out.push(s[i]);
        }
        assert(out@ == replace_char(s@.take(i + 1), c, r@));
    }
    assert(s@.take(s@.len() as int) == s@);
    out
}

/// The parts joined with `sep`.
pub fn join_chars(parts: &[Vec<char>], sep: &[char]) -> (out: Vec<char>)
    ensures
        out@ == join(parts@.map_values(|v: Vec<char>| v@), sep@),
{
    let ghost views = parts@.map_values(|v: Vec<char>| v@);
    let mut out: Vec<char> = Vec::new();
    for i in 0..parts.len()
        invariant
            views == parts@.map_values(|v: Vec<char>| v@),
            out@ == join(views.take(i as int), sep@),
    {
        assert(views.take(i + 1).drop_last() == views.take(i as int));
        if i > 0 {
            push_all(&mut out, sep);
        } else {
            assert(views.take(0) == Seq::<Seq<char>>::empty());
        }
        push_all(&mut out, parts[i].as_slice());
        assert(views.take(i + 1).last() == parts@[i as int]@);
    }
    assert(views.take(parts@.len() as int) == views);
    out
}

/// `str::split_whitespace`.
pub fn words_chars(s: &[char]) -> (r: Vec<Vec<char>>)
    ensures
        r@.len() == words(s@).len(),
        forall|k: int| 0 <= k < r@.len() ==> #[trigger] r@[k]@ == words(s@)[k],
{
    let mut out: Vec<Vec<char>> = Vec::new();
    let mut cur: Vec<char> = Vec::new();
    let n = s.len();
    assert(s@.take(0) =~= Seq::<char>::empty());
    for i in 0..n
        invariant
            n == s@.len(),
            ws_pieces(s@.take(i as int)).len() >= 1,
            ws_pieces(s@.take(i as int)).last() == cur@,
            out@.map_values(|v: Vec<char>| v@) == keep_nonempty(ws_pieces(s@.take(i as int)).drop_last()),
    {
        let ghost p = ws_pieces(s@.take(i as int));
        let ghost ov = out@.map_values(|v: Vec<char>| v@);
        assert(s@.take(i + 1).drop_last() == s@.take(i as int));
        assert(s@.take(i + 1).last() == s@[i as int]);
        if is_whitespace(s[i]) {
            if cur.len() > 0 {
                let mut w: Vec<char> = Vec::new();
                std::mem::swap(&mut w, &mut cur);
                out.push(w);
                assert(out@.map_values(|v: Vec<char>| v@) == ov.push(w@));
            }
            assert(p.push(Seq::empty()).drop_last() == p);
            assert(keep_nonempty(p) == keep_nonempty(p.drop_last()) + (if p.last().len() > 0 {
                seq![p.last()]
            } else {
                Seq::<Seq<char>>::empty()
            }));
        } else {
            cur.push(s[i]);
            assert(p.drop_last().push(p.last().push(s@[i as int])).drop_last() == p.drop_last());
        }
    }
    assert(s@.take(n as int) == s@);
    let ghost p = ws_pieces(s@);
    let ghost ov = out@.map_values(|v: Vec<char>| v@);
    if cur.len() > 0 {
        out.push(cur);
        assert(out@.map_values(|v: Vec<char>| v@) == ov.push(p.last()));
    }
    assert(out@.map_values(|v: Vec<char>| v@) == words(s@));
    assert forall|k: int| 0 <= k < out@.len() implies #[trigger] out@[k]@ == words(s@)[k] by {
        assert(out@.map_values(|v: Vec<char>| v@)[k] == out@[k]@);
    }
    out
}

/// `str::lines`.
pub fn lines_chars(s: &[char]) -> (r: Vec<Vec<char>>)
    ensures
        r@.len() == lines(s@).len(),
        forall|k: int| 0 <= k < r@.len() ==> #[trigger] r@[k]@ == lines(s@)[k],
{
    let nl = vec!['\n'];
    let pieces = split_chars(s, nl.as_slice());
    proof {
        lemma_split_scan_nonempty(s@, nl@, 0, 0);
    }
    let ghost ps = split(s@, nl@);
    assert(nl@ == seq!['\n']);
    let mut out: Vec<Vec<char>> = Vec::new();
    let last = pieces.len() - 1;
    for i in 0..last
        invariant
            last + 1 == pieces@.len(),
            ps == split(s@, seq!['\n']),
            pieces@.len() == ps.len(),
            forall|k: int| 0 <= k < pieces@.len() ==> #[trigger] pieces@[k]@ == ps[k],
            out@.len() == i,
            forall|k: int| 0 <= k < i ==> #[trigger] out@[k]@ == strip_cr(ps[k]),
    {
        let p = &pieces[i];
        if p.len() > 0 && p[p.len() - 1] == '\r' {
            let q = slice_chars(p.as_slice(), 0, p.len() - 1);
            assert(q@ == p@.drop_last());
            out.push(q);
        } else {
            out.push(slice_chars(p.as_slice(), 0, p.len()));
            assert(p@.subrange(0, p@.len() as int) == p@);
        }
    }
    let ghost body = ps.drop_last().map_values(|l: Seq<char>| strip_cr(l));
    if pieces[last].len() > 0 {
        out.push(slice_chars(pieces[last].as_slice(), 0, pieces[last].len()));
        assert(pieces@[last as int]@.subrange(0, pieces@[last as int]@.len() as int)
            == pieces@[last as int]@);
        assert(lines(s@) == body.push(ps.last()));
    } else {
        assert(lines(s@) == body);
    }
    out
}

} // verus!
