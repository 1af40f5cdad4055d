//! Character-level text operations that the document logic is built on:
//! Unicode whitespace, trimming, substring search, prefixes and suffixes.
//! Everything here works on `Seq<char>` in specifications and on `Vec<char>`
//! or `String` in executable code.
use vstd::prelude::*;

verus! {

/// The characters with the Unicode `White_Space` property, which is what
/// `char::is_whitespace` (and therefore `str::trim` and
/// `str::split_whitespace`) tests for.
pub open spec fn is_ws(c: char) -> bool {
    let u = c as u32;
    ||| 0x09 <= u <= 0x0d
    ||| u == 0x20
    ||| u == 0x85
    ||| u == 0xa0
    ||| u == 0x1680
    ||| 0x2000 <= u <= 0x200a
    ||| u == 0x2028
    ||| u == 0x2029
    ||| u == 0x202f
    ||| u == 0x205f
    ||| u == 0x3000
}

/// Executable test for `is_ws`.
pub fn is_whitespace_char(c: char) -> (r: bool)
    ensures
        r == is_ws(c),
{
    let u = c as u32;
    (0x09 <= u && u <= 0x0d) || u == 0x20 || u == 0x85 || u == 0xa0 || u == 0x1680 || (0x2000
        <= u && u <= 0x200a) || u == 0x2028 || u == 0x2029 || u == 0x202f || u == 0x205f || u
        == 0x3000
}

/// Number of leading whitespace characters of `s` from position `i` on.
pub open spec fn lead_ws_from(s: Seq<char>, i: int) -> int
    decreases s.len() - i,
{
    if i < 0 || i >= s.len() || !is_ws(s[i]) {
        0
    } else {
        1 + lead_ws_from(s, i + 1)
    }
}

/// Index one past the last non-whitespace character of `s[..j]`.
pub open spec fn trim_end_index(s: Seq<char>, j: int) -> int
    decreases j,
{
    if j <= 0 || j > s.len() || !is_ws(s[j - 1]) {
        if j > s.len() { s.len() as int } else if j < 0 { 0 } else { j }
    } else {
        trim_end_index(s, j - 1)
    }
}

/// `s` with leading whitespace removed (`str::trim_start`).
pub open spec fn trim_start(s: Seq<char>) -> Seq<char> {
    s.subrange(lead_ws_from(s, 0), s.len() as int)
}

/// `s` with trailing whitespace removed (`str::trim_end`).
pub open spec fn trim_end(s: Seq<char>) -> Seq<char> {
    s.subrange(0, trim_end_index(s, s.len() as int))
}

/// `s` with leading and trailing whitespace removed (`str::trim`).
pub open spec fn trim(s: Seq<char>) -> Seq<char> {
    trim_end(trim_start(s))
}

/// `s` starts with `p`.
pub open spec fn has_prefix(s: Seq<char>, p: Seq<char>) -> bool {
    p.len() <= s.len() && s.subrange(0, p.len() as int) == p
}

/// `s` ends with `p`.
pub open spec fn has_suffix(s: Seq<char>, p: Seq<char>) -> bool {
    p.len() <= s.len() && s.subrange(s.len() - p.len(), s.len() as int) == p
}

/// `n` occurs in `s` starting at position `i`.
pub open spec fn occurs_at(s: Seq<char>, n: Seq<char>, i: int) -> bool {
    0 <= i && i + n.len() <= s.len() && s.subrange(i, i + n.len()) == n
}

/// `n` is a substring of `s` (`str::contains`).
pub open spec fn contains(s: Seq<char>, n: Seq<char>) -> bool {
    exists|i: int| occurs_at(s, n, i)
}

/// First position at or after `i` where `n` occurs in `s`, if any.
pub open spec fn find_from(s: Seq<char>, n: Seq<char>, i: int) -> Option<int>
    decreases s.len() + 1 - i,
{
    if i < 0 || i + n.len() > s.len() {
        None
    } else if occurs_at(s, n, i) {
        Some(i)
    } else {
        find_from(s, n, i + 1)
    }
}

/// `s` with all trailing `c` characters removed (`str::trim_end_matches` with a char).
pub open spec fn trim_end_char(s: Seq<char>, c: char) -> Seq<char>
    decreases s.len(),
{
    if s.len() > 0 && s.last() == c {
        trim_end_char(s.drop_last(), c)
    } else {
        s
    }
}

/// `s` holds a whitespace-separated word equal to `w` (`s.split_whitespace().any(|t| t == w)`),
/// for a non-empty `w` without whitespace.
pub open spec fn has_word(s: Seq<char>, w: Seq<char>) -> bool {
    exists|i: int|
        #![trigger occurs_at(s, w, i)]
        occurs_at(s, w, i) && (i == 0 || is_ws(s[i - 1])) && (i + w.len() == s.len() || is_ws(
            s[i + w.len()],
        ))
}

/// When `find_from` finds nothing, `n` occurs nowhere from `i` on.
pub proof fn lemma_find_from_none(s: Seq<char>, n: Seq<char>, i: int)
    requires
        0 <= i,
        find_from(s, n, i) is None,
    ensures
        forall|j: int| i <= j ==> !occurs_at(s, n, j),
    decreases s.len() + 1 - i,
{
    if i + n.len() <= s.len() {
        lemma_find_from_none(s, n, i + 1);
    }
}

/// What `find_from` finds is an occurrence at or after `i`, the first one.
pub proof fn lemma_find_from_some(s: Seq<char>, n: Seq<char>, i: int)
    requires
        0 <= i,
        find_from(s, n, i) is Some,
    ensures
        occurs_at(s, n, find_from(s, n, i)->0),
        i <= find_from(s, n, i)->0,
        forall|j: int| i <= j < find_from(s, n, i)->0 ==> !occurs_at(s, n, j),
    decreases s.len() + 1 - i,
{
    if !occurs_at(s, n, i) {
        lemma_find_from_some(s, n, i + 1);
    }
}

/// `lead_ws_from` counts the whitespace run that starts at `i`.
pub proof fn lemma_lead_ws_bounds(s: Seq<char>, i: int)
    requires
        0 <= i <= s.len(),
    ensures
        0 <= lead_ws_from(s, i) <= s.len() - i,
        forall|k: int| i <= k < i + lead_ws_from(s, i) ==> is_ws(#[trigger] s[k]),
        i + lead_ws_from(s, i) < s.len() ==> !is_ws(s[i + lead_ws_from(s, i)]),
    decreases s.len() - i,
{
    if i < s.len() && is_ws(s[i]) {
        lemma_lead_ws_bounds(s, i + 1);
    }
}

/// `trim_end_index` is where the whitespace run that ends at `j` starts.
pub proof fn lemma_trim_end_bounds(s: Seq<char>, j: int)
    requires
        0 <= j <= s.len(),
    ensures
        0 <= trim_end_index(s, j) <= j,
        forall|k: int| trim_end_index(s, j) <= k < j ==> is_ws(#[trigger] s[k]),
        trim_end_index(s, j) > 0 ==> !is_ws(s[trim_end_index(s, j) - 1]),
    decreases j,
{
    if j > 0 && is_ws(s[j - 1]) {
        lemma_trim_end_bounds(s, j - 1);
    }
}

/// Trimming a trimmed text changes nothing.
pub proof fn lemma_trim_idempotent(s: Seq<char>)
    ensures
        trim(trim(s)) == trim(s),
{
    let a = lead_ws_from(s, 0);
    lemma_lead_ws_bounds(s, 0);
    let u = trim_start(s);
    let e = trim_end_index(u, u.len() as int);
    lemma_trim_end_bounds(u, u.len() as int);
    let t = trim(s);
    assert(t == u.subrange(0, e));
    if e > 0 {
        assert(t[0] == s[a]);
        assert(!is_ws(t[0]));
        assert(t[t.len() - 1] == u[e - 1]);
        assert(lead_ws_from(t, 0) == 0);
        assert(trim_start(t) =~= t);
        assert(trim_end_index(t, t.len() as int) == t.len());
        assert(trim_end(t) =~= t);
    } else {
        assert(t.len() == 0);
        assert(trim_start(t) =~= t);
        assert(trim_end(t) =~= t);
    }
}

/// The characters of `s`, in order.
pub fn chars_of(s: &str) -> (v: Vec<char>)
    ensures
        v@ == s@,
{
    let mut v: Vec<char> = Vec::new();
    for c in it: s.chars()
        invariant
            v@ == it.seq().take(it.index() as int),
            it.seq() == s@,
    {
        v.push(c);
    }
    v
}

/// Appends `c` to `s` (`String::push`).
#[verifier::external_body]
pub(crate) fn push_char(s: &mut String, c: char)
    ensures
        final(s)@ == old(s)@.push(c),
{
    s.push(c);
}

/// A `String` holding the characters `v[from..to]`.
pub fn string_of(v: &Vec<char>, from: usize, to: usize) -> (s: String)
    requires
        from <= to <= v.len(),
    ensures
        s@ == v@.subrange(from as int, to as int),
{
    let mut s = String::new();
    let mut i = from;
    while i < to
        invariant
            from <= i <= to <= v.len(),
            s@ == v@.subrange(from as int, i as int),
        decreases to - i,
    {
        push_char(&mut s, v[i]);
        assert(v@.subrange(from as int, i + 1) == v@.subrange(from as int, i as int).push(v@[i as int]));
        i += 1;
    }
    s
}

/// The characters `v[from..to]`.
pub fn to_vec_range(v: &Vec<char>, from: usize, to: usize) -> (r: Vec<char>)
    requires
        from <= to <= v.len(),
    ensures
        r@ == v@.subrange(from as int, to as int),
{
    let mut r: Vec<char> = Vec::new();
    let mut i = from;
    while i < to
        invariant
            from <= i <= to <= v.len(),
            r@ == v@.subrange(from as int, i as int),
        decreases to - i,
    {
        r.push(v[i]);
        assert(v@.subrange(from as int, i + 1) == v@.subrange(from as int, i as int).push(v@[i as int]));
        i += 1;
    }
    r
}

/// A `String` holding all characters of `v`.
pub fn string_of_all(v: &Vec<char>) -> (s: String)
    ensures
        s@ == v@,
{
    let s = string_of(v, 0, v.len());
    assert(v@.subrange(0, v@.len() as int) == v@);
    s
}

/// A copy of `s` (`str::to_string`).
pub fn to_owned_string(s: &str) -> (r: String)
    ensures
        r@ == s@,
{
    let v = chars_of(s);
    string_of_all(&v)
}

/// `a` followed by `b`.
pub fn concat(a: &str, b: &str) -> (r: String)
    ensures
        r@ == a@ + b@,
{
    let mut r = to_owned_string(a);
    let bv = chars_of(b);
    let mut i: usize = 0;
    while i < bv.len()
        invariant
            i <= bv.len(),
            bv@ == b@,
            r@ == a@ + b@.take(i as int),
        decreases bv.len() - i,
    {
        push_char(&mut r, bv[i]);
        assert(b@.take(i + 1) == b@.take(i as int).push(b@[i as int]));
        i += 1;
    }
    assert(b@.take(bv.len() as int) == b@);
    r
}

/// `v[i..i + n.len()]` equals `n`.
pub fn matches_at(v: &Vec<char>, n: &Vec<char>, i: usize) -> (r: bool)
    ensures
        r == occurs_at(v@, n@, i as int),
{
    if i > v.len() || n.len() > v.len() - i {
        return false;
    }
    let mut k: usize = 0;
    while k < n.len()
        invariant
            k <= n.len(),
            i + n.len() <= v.len(),
            forall|m: int| 0 <= m < k ==> v@[i + m] == n@[m],
        decreases n.len() - k,
    {
        if v[i + k] != n[k] {
            assert(v@.subrange(i as int, i + n@.len())[k as int] != n@[k as int]);
            return false;
        }
        k += 1;
    }
    assert(v@.subrange(i as int, i + n@.len()) =~= n@);
    true
}

/// Two character sequences are equal.
pub fn chars_eq(a: &Vec<char>, b: &Vec<char>) -> (r: bool)
    ensures
        r == (a@ == b@),
{
    if a.len() != b.len() {
        return false;
    }
    let r = matches_at(a, b, 0);
    assert(a@.subrange(0, a@.len() as int) == a@);
    r
}

/// Two strings are equal.
pub fn str_eq(a: &str, b: &str) -> (r: bool)
    ensures
        r == (a@ == b@),
{
    let av = chars_of(a);
    let bv = chars_of(b);
    chars_eq(&av, &bv)
}

/// First occurrence of `n` in `v` at or after `from` (`str::find`).
pub fn find_chars(v: &Vec<char>, n: &Vec<char>, from: usize) -> (r: Option<usize>)
    ensures
        r matches Some(k) ==> find_from(v@, n@, from as int) == Some(k as int),
        r is None ==> find_from(v@, n@, from as int) is None,
{
    let mut i = from;
    if i > v.len() || n.len() > v.len() - i {
        return None;
    }
    let last = v.len() - n.len();
    loop
        invariant
            from <= i <= last,
            last == v.len() - n.len(),
            n.len() <= v.len(),
            find_from(v@, n@, from as int) == find_from(v@, n@, i as int),
        decreases last - i,
    {
        if matches_at(v, n, i) {
            return Some(i);
        }
        if i == last {
            assert(find_from(v@, n@, i + 1) is None);
            return None;
        }
        i += 1;
    }
}

/// `n` occurs somewhere in `v`.
pub fn contains_chars(v: &Vec<char>, n: &Vec<char>) -> (r: bool)
    ensures
        r == contains(v@, n@),
{
    let f = find_chars(v, n, 0);
    proof {
        if f is None {
            lemma_find_from_none(v@, n@, 0);
        } else {
            lemma_find_from_some(v@, n@, 0);
        }
    }
    f.is_some()
}

/// `n` occurs somewhere in the string `s` (`str::contains`).
pub fn str_contains(s: &str, n: &str) -> (r: bool)
    ensures
        r == contains(s@, n@),
{
    let sv = chars_of(s);
    let nv = chars_of(n);
    contains_chars(&sv, &nv)
}

/// Bounds `[start, end)` of `v[from..to]` with surrounding whitespace removed.
pub fn trim_bounds(v: &Vec<char>, from: usize, to: usize) -> (r: (usize, usize))
    requires
        from <= to <= v.len(),
    ensures
        from <= r.0 <= r.1 <= to,
        v@.subrange(r.0 as int, r.1 as int) == trim(v@.subrange(from as int, to as int)),
{
    let ghost s = v@.subrange(from as int, to as int);
    let mut a = from;
    while a < to && is_whitespace_char(v[a])
        invariant
            from <= a <= to <= v.len(),
            s == v@.subrange(from as int, to as int),
            lead_ws_from(s, 0) == (a - from) + lead_ws_from(s, a - from),
        decreases to - a,
    {
        a += 1;
    }
    proof {
        assert(lead_ws_from(s, (a - from) as int) == 0);
    }
    let ghost t = trim_start(s);
    assert(t == v@.subrange(a as int, to as int));
    let mut b = to;
    while b > a && is_whitespace_char(v[b - 1])
        invariant
            a <= b <= to,
            to <= v.len(),
            t == v@.subrange(a as int, to as int),
            trim_end_index(t, t.len() as int) == trim_end_index(t, b - a),
        decreases b,
    {
        b -= 1;
    }
    assert(trim_end_index(t, (b - a) as int) == b - a);
    assert(trim(s) =~= v@.subrange(a as int, b as int));
    (a, b)
}

/// `s` with surrounding whitespace removed (`str::trim().to_string()`).
pub fn trim_string(s: &str) -> (r: String)
    ensures
        r@ == trim(s@),
{
    let v = chars_of(s);
    let (a, b) = trim_bounds(&v, 0, v.len());
    assert(v@.subrange(0, v@.len() as int) == v@);
    string_of(&v, a, b)
}

/// `s` with all trailing newlines removed.
pub fn trim_trailing_newlines(s: &str) -> (r: String)
    ensures
        r@ == trim_end_char(s@, '\n'),
{
    let v = chars_of(s);
    let mut b = v.len();
    assert(s@.subrange(0, v@.len() as int) == s@);
    while b > 0 && v[b - 1] == '\n'
        invariant
            b <= v.len(),
            v@ == s@,
            trim_end_char(s@, '\n') == trim_end_char(s@.subrange(0, b as int), '\n'),
        decreases b,
    {
        assert(s@.subrange(0, b as int).drop_last() == s@.subrange(0, b - 1));
        b -= 1;
    }
    assert(s@.subrange(0, v@.len() as int) == s@);
    string_of(&v, 0, b)
}

/// `v` holds the word `w` as a whitespace-separated token.
pub fn has_word_chars(v: &Vec<char>, w: &Vec<char>) -> (r: bool)
    requires
        w@.len() > 0,
    ensures
        r == has_word(v@, w@),
{
    let mut i: usize = 0;
    while i < v.len()
        invariant
            i <= v.len(),
            w@.len() > 0,
            forall|j: int|
                #![trigger occurs_at(v@, w@, j)]
                0 <= j < i ==> !(occurs_at(v@, w@, j) && (j == 0 || is_ws(v@[j - 1])) && (j
                    + w@.len() == v@.len() || is_ws(v@[j + w@.len()]))),
        decreases v.len() - i,
    {
        if matches_at(v, w, i) && (i == 0 || is_whitespace_char(v[i - 1])) && (i + w.len()
            == v.len() || is_whitespace_char(v[i + w.len()])) {
            return true;
        }
        i += 1;
    }
    false
}

/// `l` without a final `\r`.
pub open spec fn strip_cr(l: Seq<char>) -> Seq<char> {
    if l.len() > 0 && l.last() == '\r' {
        l.drop_last()
    } else {
        l
    }
}

/// The lines of `s` as `str::lines` gives them: `s` is cut at each `\n`, a
/// `\r` just before a `\n` is dropped, and a final `\n` starts no new line.
pub open spec fn spec_lines(s: Seq<char>) -> Seq<Seq<char>>
    decreases s.len(),
{
    if s.len() == 0 {
        Seq::empty()
    } else {
        match find_from(s, seq!['\n'], 0) {
            Some(i) => if 0 <= i < s.len() {
                seq![strip_cr(s.subrange(0, i))] + spec_lines(s.subrange(i + 1, s.len() as int))
            } else {
                Seq::empty()
            },
            None => seq![s],
        }
    }
}

/// The first `\n` of `s` from `m` on is at `j` when there is none between.
pub proof fn lemma_find_newline(s: Seq<char>, m: int, j: int)
    requires
        0 <= m <= j < s.len(),
        s[j] == '\n',
        forall|k: int| m <= k < j ==> s[k] != '\n',
    ensures
        find_from(s, seq!['\n'], m) == Some(j),
    decreases j - m,
{
    if m < j {
        assert(!occurs_at(s, seq!['\n'], m)) by {
            if occurs_at(s, seq!['\n'], m) {
                assert(s.subrange(m, m + 1)[0] == s[m]);
            }
        }
        lemma_find_newline(s, m + 1, j);
    } else {
        assert(s.subrange(j, j + 1) =~= seq!['\n']);
    }
}

/// A text without `\n` from `m` on has none to find.
pub proof fn lemma_find_no_newline(s: Seq<char>, m: int)
    requires
        0 <= m,
        forall|k: int| m <= k < s.len() ==> s[k] != '\n',
    ensures
        find_from(s, seq!['\n'], m) is None,
    decreases s.len() - m,
{
    if m + 1 <= s.len() {
        assert(!occurs_at(s, seq!['\n'], m)) by {
            if occurs_at(s, seq!['\n'], m) {
                assert(s.subrange(m, m + 1)[0] == s[m]);
            }
        }
        lemma_find_no_newline(s, m + 1);
    }
}

/// The lines of `s` (see `spec_lines`).
pub fn text_lines(s: &str) -> (r: Vec<String>)
    ensures
        r@.map_values(|x: String| x@) == spec_lines(s@),
{
    let v = chars_of(s);
    let ghost sv = s@;
    let mut r: Vec<String> = Vec::new();
    let mut start: usize = 0;
    let mut i: usize = 0;
    assert(sv.subrange(0, sv.len() as int) =~= sv);
    assert(r@.map_values(|x: String| x@) =~= Seq::<Seq<char>>::empty());
    assert(r@.map_values(|x: String| x@) + spec_lines(sv) =~= spec_lines(sv));
    while i < v.len()
        invariant
            start <= i <= v.len(),
            v@ == sv,
            r@.map_values(|x: String| x@) + spec_lines(sv.subrange(start as int, sv.len() as int)) == spec_lines(sv),
            forall|k: int| start <= k < i ==> sv[k] != '\n',
        decreases v.len() - i,
    {
        if v[i] == '\n' {
            let ghost sub = sv.subrange(start as int, sv.len() as int);
            proof {
                lemma_find_newline(sub, 0, i - start);
                assert(sub.subrange(0, i - start) =~= sv.subrange(start as int, i as int));
                assert(sub.subrange(i - start + 1, sub.len() as int) =~= sv.subrange(i + 1, sv.len() as int));
            }
            let end: usize = if i > start && v[i - 1] == '\r' { i - 1 } else { i };
            let line = string_of(&v, start, end);
            assert(line@ == strip_cr(sv.subrange(start as int, i as int)));
            let ghost before = r@;
            r.push(line);
            assert(r@.map_values(|x: String| x@) =~= before.map_values(|x: String| x@).push(line@));
            assert(r@.map_values(|x: String| x@) + spec_lines(sv.subrange(i + 1, sv.len() as int)) =~= before.map_values(|x: String| x@) + spec_lines(sub));
            start = i + 1;
        }
        i += 1;
    }
    if start < v.len() {
        let ghost sub = sv.subrange(start as int, sv.len() as int);
        proof {
            lemma_find_no_newline(sub, 0);
        }
        let line = string_of(&v, start, v.len());
        let ghost before = r@;
        r.push(line);
        assert(r@.map_values(|x: String| x@) =~= before.map_values(|x: String| x@).push(line@));
        assert(r@.map_values(|x: String| x@) =~= before.map_values(|x: String| x@) + spec_lines(sub));
    } else {
        assert(r@.map_values(|x: String| x@) + spec_lines(sv.subrange(start as int, sv.len() as int)) =~= r@.map_values(|x: String| x@));
    }
    r
}

/// The decimal digit `d` (`d < 10`).
pub open spec fn digit_char(d: nat) -> char {
    if d == 0 { '0' } else if d == 1 { '1' } else if d == 2 { '2' } else if d == 3 { '3' } else if d == 4 { '4' }
    else if d == 5 { '5' } else if d == 6 { '6' } else if d == 7 { '7' } else if d == 8 { '8' } else { '9' }
}

/// The decimal digits of `n`, without leading zeros (`0` for zero).
pub open spec fn decimal(n: nat) -> Seq<char>
    decreases n,
{
    if n < 10 {
        seq![digit_char(n)]
    } else {
        decimal(n / 10).push(digit_char(n % 10))
    }
}

fn digit_of(d: usize) -> (c: char)
    requires
        d < 10,
    ensures
        c == digit_char(d as nat),
{
    match d {
        0 => '0',
        1 => '1',
        2 => '2',
        3 => '3',
        4 => '4',
        5 => '5',
        6 => '6',
        7 => '7',
        8 => '8',
        _ => '9',
    }
}

/// `n` written in decimal (see `decimal`).
pub fn decimal_string(n: usize) -> (r: String)
    ensures
        r@ == decimal(n as nat),
    decreases n,
{
    if n < 10 {
        let mut r = String::new();
        push_char(&mut r, digit_of(n));
        assert(r@ =~= seq![digit_char(n as nat)]);
        r
    } else {
        let mut r = decimal_string(n / 10);
        push_char(&mut r, digit_of(n % 10));
        r
    }
}

} // verus!
