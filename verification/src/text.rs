//! Character-level string helpers shared by the parsers and formatters.
//!
//! Strings are handled as `Seq<char>` in specifications and as `Vec<char>`
//! while they are being taken apart or built up.
use vstd::prelude::*;

verus! {

/// Unicode `White_Space`, the set that `char::is_whitespace` tests for.
pub open spec fn is_ws(c: char) -> bool {
    ||| c == '\t'
    ||| c == '\n'
    ||| c == '\u{0B}'
    ||| c == '\u{0C}'
    ||| c == '\r'
    ||| c == ' '
    ||| c == '\u{85}'
    ||| c == '\u{A0}'
    ||| c == '\u{1680}'
    ||| ('\u{2000}' <= c && c <= '\u{200A}')
    ||| c == '\u{2028}'
    ||| c == '\u{2029}'
    ||| c == '\u{202F}'
    ||| c == '\u{205F}'
    ||| c == '\u{3000}'
}

/// Whether `c` is Unicode white space.
pub fn is_whitespace(c: char) -> (r: bool)
    ensures
        r == is_ws(c),
{
    c == '\t' || c == '\n' || c == '\u{0B}' || c == '\u{0C}' || c == '\r' || c == ' ' || c
        == '\u{85}' || c == '\u{A0}' || c == '\u{1680}' || ('\u{2000}' <= c && c <= '\u{200A}')
        || c == '\u{2028}' || c == '\u{2029}' || c == '\u{202F}' || c == '\u{205F}' || c
        == '\u{3000}'
}

/// `s` without its leading white space.
pub open spec fn trim_start(s: Seq<char>) -> Seq<char>
    decreases s.len(),
{
    if s.len() > 0 && is_ws(s[0]) {
        trim_start(s.drop_first())
    } else {
        s
    }
}

/// `s` without its trailing white space.
pub open spec fn trim_end(s: Seq<char>) -> Seq<char>
    decreases s.len(),
{
    if s.len() > 0 && is_ws(s.last()) {
        trim_end(s.drop_last())
    } else {
        s
    }
}

/// `s` without white space at either end, as `str::trim` gives it.
pub open spec fn trim(s: Seq<char>) -> Seq<char> {
    trim_end(trim_start(s))
}

/// The ASCII lower-case form of one character; other characters are kept.
pub open spec fn lower_char(c: char) -> char {
    if 'A' <= c && c <= 'Z' {
        ((c as u32) + 32) as char
    } else {
        c
    }
}

/// `s` with each ASCII upper-case letter made lower case, as `to_ascii_lowercase` does.
pub open spec fn ascii_lower(s: Seq<char>) -> Seq<char> {
    s.map_values(|c: char| lower_char(c))
}

/// Whether `p` is a prefix of `s`.
pub open spec fn has_prefix(s: Seq<char>, p: Seq<char>) -> bool {
    p.len() <= s.len() && s.take(p.len() as int) == p
}

/// An optional `&str` as optional text.
pub open spec fn str_view(s: Option<&str>) -> Option<Seq<char>> {
    match s {
        Some(t) => Some(t@),
        None => None,
    }
}

/// An optional `String` as optional text.
pub open spec fn string_view(s: Option<String>) -> Option<Seq<char>> {
    match s {
        Some(t) => Some(t@),
        None => None,
    }
}

/// The characters of `s`, in order.
pub fn chars_of(s: &str) -> (r: Vec<char>)
    ensures
        r@ == s@,
{
    let mut r: Vec<char> = Vec::new();
    for c in it: s.chars()
        invariant
            r@ == it.seq().take(it.index() as int),
            it.seq() == s@,
    {
        r.push(c);
    }
    r
}

/// Collects characters into a `String` (`FromIterator<char>` of std).
///
/// Trusted: the string holds exactly the characters of `v`, in order.
#[verifier::external_body]
pub(crate) fn string_from_chars(v: &[char]) -> (r: String)
    ensures
        r@ == v@,
{
    v.iter().collect()
}

/// Appends the characters of `s` to `out`.
pub fn push_str(out: &mut Vec<char>, s: &str)
    ensures
        final(out)@ == old(out)@ + s@,
{
    let cs = chars_of(s);
    push_chars(out, &cs);
}

/// Appends `s` to `out`.
pub fn push_chars(out: &mut Vec<char>, s: &[char])
    ensures
        final(out)@ == old(out)@ + s@,
{
    let ghost start = out@;
    let n = s.len();
    let mut i: usize = 0;
    while i < n
        invariant
            n == s@.len(),
            i <= n,
            out@ == start + s@.take(i as int),
        decreases n - i,
    {
        out.push(s[i]);
        i = i + 1;
        assert(s@.take(i as int) =~= s@.take((i - 1) as int).push(s@[i - 1]));
    }
    assert(s@.take(n as int) =~= s@);
}

/// Whether `a` and the characters of `lit` are the same.
pub fn eq_lit(a: &[char], lit: &str) -> (r: bool)
    ensures
        r == (a@ == lit@),
{
    let b = chars_of(lit);
    eq_chars(a, &b)
}

/// Whether two character sequences are equal.
pub fn eq_chars(a: &[char], b: &[char]) -> (r: bool)
    ensures
        r == (a@ == b@),
{
    if a.len() != b.len() {
        return false;
    }
    let n = a.len();
    let mut i: usize = 0;
    while i < n
        invariant
            n == a@.len(),
            n == b@.len(),
            i <= n,
            forall|j: int| 0 <= j < i ==> a@[j] == b@[j],
        decreases n - i,
    {
        if a[i] != b[i] {
            return false;
        }
        i = i + 1;
    }
    assert(a@ =~= b@);
    true
}

/// Whether `s` begins with `p`.
pub fn starts_with_chars(s: &[char], p: &[char]) -> (r: bool)
    ensures
        r == has_prefix(s@, p@),
{
    if p.len() > s.len() {
        return false;
    }
    let n = p.len();
    let mut i: usize = 0;
    while i < n
        invariant
            n == p@.len(),
            n <= s@.len(),
            i <= n,
            forall|j: int| 0 <= j < i ==> s@[j] == p@[j],
        decreases n - i,
    {
        if s[i] != p[i] {
            assert(s@.take(n as int)[i as int] != p@[i as int]);
            return false;
        }
        i = i + 1;
    }
    assert(s@.take(n as int) =~= p@);
    true
}

/// The characters `v[from..to]`.
pub fn slice_chars(v: &[char], from: usize, to: usize) -> (r: Vec<char>)
    requires
        from <= to <= v@.len(),
    ensures
        r@ == v@.subrange(from as int, to as int),
{
    let mut r: Vec<char> = Vec::new();
    let mut i: usize = from;
    while i < to
        invariant
            from <= i <= to,
            to <= v@.len(),
            r@ == v@.subrange(from as int, i as int),
        decreases to - i,
    {
        r.push(v[i]);
        i = i + 1;
        assert(r@ =~= v@.subrange(from as int, i as int));
    }
    r
}

/// The bounds of `v[from..to]` without white space at either end.
pub fn trim_range(v: &[char], from: usize, to: usize) -> (r: (usize, usize))
    requires
        from <= to <= v@.len(),
    ensures
        from <= r.0 <= r.1 <= to,
        v@.subrange(r.0 as int, r.1 as int) == trim(v@.subrange(from as int, to as int)),
{
    let ghost u = v@.subrange(from as int, to as int);
    let mut i: usize = from;
    while i < to && is_whitespace(v[i])
        invariant
            from <= i <= to,
            to <= v@.len(),
            u == v@.subrange(from as int, to as int),
            trim_start(u) == trim_start(v@.subrange(i as int, to as int)),
        decreases to - i,
    {
        assert(v@.subrange(i as int, to as int).drop_first() =~= v@.subrange(i + 1, to as int));
        i = i + 1;
    }
    let ghost w = v@.subrange(i as int, to as int);
    assert(trim_start(u) == w);
    let mut j: usize = to;
    assert(w =~= v@.subrange(i as int, j as int));
    while j > i && is_whitespace(v[j - 1])
        invariant
            i <= j <= to,
            to <= v@.len(),
            w == v@.subrange(i as int, to as int),
            trim_end(w) == trim_end(v@.subrange(i as int, j as int)),
        decreases j - i,
    {
        assert(v@.subrange(i as int, j as int).drop_last() =~= v@.subrange(i as int, j - 1));
        j = j - 1;
    }
    (i, j)
}

/// `v` without white space at either end.
pub fn trim_chars(v: &[char]) -> (r: Vec<char>)
    ensures
        r@ == trim(v@),
{
    assert(v@.subrange(0, v@.len() as int) =~= v@);
    let (i, j) = trim_range(v, 0, v.len());
    slice_chars(v, i, j)
}

/// The end of the `sep`-separated field of `s` that starts at `from`: the first
/// index at or after `from` that holds `sep`, or the length of `s`.
pub open spec fn field_end(s: Seq<char>, sep: char, from: int) -> int
    decreases s.len() - from,
{
    if from >= s.len() {
        s.len() as int
    } else if s[from] == sep {
        from
    } else {
        field_end(s, sep, from + 1)
    }
}

pub proof fn lemma_field_end(s: Seq<char>, sep: char, from: int)
    requires
        0 <= from <= s.len(),
    ensures
        from <= field_end(s, sep, from) <= s.len(),
        field_end(s, sep, from) < s.len() ==> s[field_end(s, sep, from)] == sep,
        forall|k: int| from <= k < field_end(s, sep, from) ==> s[k] != sep,
    decreases s.len() - from,
{
    if from < s.len() && s[from] != sep {
        lemma_field_end(s, sep, from + 1);
    }
}

/// The end of the `sep`-separated field of `v` that starts at `from`.
pub fn find_field_end(v: &[char], sep: char, from: usize) -> (r: usize)
    requires
        from <= v@.len(),
    ensures
        r == field_end(v@, sep, from as int),
        from <= r <= v@.len(),
        r < v@.len() ==> v@[r as int] == sep,
{
    proof {
        lemma_field_end(v@, sep, from as int);
    }
    let mut i = from;
    while i < v.len() && v[i] != sep
        invariant
            from <= i <= v@.len(),
            field_end(v@, sep, from as int) == field_end(v@, sep, i as int),
        decreases v@.len() - i,
    {
        i = i + 1;
    }
    i
}

/// The first index of `c` in `s`, if any.
pub open spec fn index_of(s: Seq<char>, c: char) -> Option<int> {
    if exists|i: int| 0 <= i < s.len() && s[i] == c {
        Some(choose|i: int| 0 <= i < s.len() && s[i] == c && forall|k: int| 0 <= k < i ==> s[k] != c)
    } else {
        None
    }
}

/// The first index of `c` in `v[from..to]`, counted from the start of `v`.
pub fn find_char(v: &[char], c: char, from: usize, to: usize) -> (r: Option<usize>)
    requires
        from <= to <= v@.len(),
    ensures
        r matches Some(q) ==> index_of(v@.subrange(from as int, to as int), c) == Some(q - from),
        r matches Some(q) ==> from <= q < to,
        r is None ==> index_of(v@.subrange(from as int, to as int), c) is None,
{
    let ghost u = v@.subrange(from as int, to as int);
    let mut i = from;
    while i < to
        invariant
            from <= i <= to,
            to <= v@.len(),
            u == v@.subrange(from as int, to as int),
            forall|k: int| 0 <= k < i - from ==> u[k] != c,
        decreases to - i,
    {
        if v[i] == c {
            assert(u[i - from] == c);
            let ghost q = choose|q: int| 0 <= q < u.len() && u[q] == c && forall|k: int| 0 <= k < q ==> u[k] != c;
            assert(q == i - from) by {
                if q < i - from {
                    assert(u[q] != c);
                }
                if q > i - from {
                    assert(u[i - from] != c);
                }
            }
            return Some(i);
        }
        i = i + 1;
    }
    None
}

/// `v` with ASCII upper-case letters made lower case.
pub fn to_ascii_lower(v: &[char]) -> (r: Vec<char>)
    ensures
        r@ == ascii_lower(v@),
{
    let mut r: Vec<char> = Vec::new();
    let n = v.len();
    let mut i: usize = 0;
    while i < n
        invariant
            n == v@.len(),
            i <= n,
            r@ == ascii_lower(v@.take(i as int)),
        decreases n - i,
    {
        let c = v[i];
        let l = if 'A' <= c && c <= 'Z' {
            char_from_u32((c as u32) + 32)
        } else {
            c
        };
        r.push(l);
        i = i + 1;
        assert(ascii_lower(v@.take(i as int)) =~= ascii_lower(v@.take((i - 1) as int)).push(
            lower_char(v@[i - 1]),
        ));
    }
    assert(v@.take(n as int) =~= v@);
    r
}

/// The character with code `u`, for `u` in the range of ASCII letters.
fn char_from_u32(u: u32) -> (c: char)
    requires
        0x41 <= u <= 0x7a,
    ensures
        c == u as char,
{
    let x = u as u8;
    x as char
}

/// Whether `p` occurs in `s` at index `i`.
pub open spec fn occurs_at(s: Seq<char>, p: Seq<char>, i: int) -> bool {
    0 <= i && i + p.len() <= s.len() && s.subrange(i, i + p.len()) == p
}

/// Whether `p` occurs anywhere in `s`.
pub open spec fn contains_seq(s: Seq<char>, p: Seq<char>) -> bool {
    exists|i: int| #[trigger] occurs_at(s, p, i)
}

/// `s` with every occurrence of `p` replaced by `rep`, scanning from the left
/// and never overlapping, as `str::replace` does.
pub open spec fn replace_all(s: Seq<char>, p: Seq<char>, rep: Seq<char>) -> Seq<char>
    recommends
        p.len() > 0,
    decreases s.len(),
{
    if s.len() == 0 || p.len() == 0 {
        s
    } else if occurs_at(s, p, 0) {
        rep + replace_all(s.subrange(p.len() as int, s.len() as int), p, rep)
    } else {
        seq![s[0]] + replace_all(s.drop_first(), p, rep)
    }
}

/// Whether `p` occurs in `v` at index `i`.
pub fn matches_at(v: &[char], p: &[char], i: usize) -> (r: bool)
    requires
        i <= v@.len(),
    ensures
        r == occurs_at(v@, p@, i as int),
{
    if p.len() > v.len() - i {
        return false;
    }
    let n = p.len();
    let mut k: usize = 0;
    while k < n
        invariant
            n == p@.len(),
            i + n <= v.len(),
            k <= n,
            forall|j: int| 0 <= j < k ==> v@[i + j] == p@[j],
        decreases n - k,
    {
        if v[i + k] != p[k] {
            assert(v@.subrange(i as int, i + n)[k as int] != p@[k as int]);
            return false;
        }
        k = k + 1;
    }
    assert(v@.subrange(i as int, i + n) =~= p@);
    true
}

/// Whether `p` occurs anywhere in `v`.
pub fn contains_chars(v: &[char], p: &[char]) -> (r: bool)
    ensures
        r == contains_seq(v@, p@),
{
    let n = v.len();
    let mut i: usize = 0;
    while i < n
        invariant
            n == v@.len(),
            i <= n,
            forall|j: int| 0 <= j < i ==> !occurs_at(v@, p@, j),
        decreases n - i,
    {
        if matches_at(v, p, i) {
            return true;
        }
        i = i + 1;
    }
    if matches_at(v, p, n) {
        return true;
    }
    assert forall|j: int| !occurs_at(v@, p@, j) by {
        if 0 <= j && j < n {
        } else if j > n {
            assert(j + p@.len() > v@.len());
        }
    }
    false
}

/// The text of `v` with every occurrence of `p` replaced by `rep`.
pub fn replace_chars(v: &[char], p: &[char], rep: &[char]) -> (r: Vec<char>)
    requires
        p@.len() > 0,
    ensures
        r@ == replace_all(v@, p@, rep@),
{
    let n = v.len();
    let mut out: Vec<char> = Vec::new();
    let mut i: usize = 0;
    assert(v@.subrange(0, n as int) =~= v@);
    while i < n
        invariant
            n == v@.len(),
            p@.len() > 0,
            i <= n,
            replace_all(v@, p@, rep@) == out@ + replace_all(
                v@.subrange(i as int, n as int),
                p@,
                rep@,
            ),
        decreases n - i,
    {
        let ghost rest = v@.subrange(i as int, n as int);
        let hit = matches_at(v, p, i);
        proof {
            assert(occurs_at(rest, p@, 0) == occurs_at(v@, p@, i as int)) by {
                if i + p@.len() <= n {
                    assert(rest.subrange(0, p@.len() as int) =~= v@.subrange(
                        i as int,
                        i + p@.len(),
                    ));
                }
            }
        }
        if hit {
            push_chars(&mut out, rep);
            assert(rest.subrange(p@.len() as int, rest.len() as int) =~= v@.subrange(
                i + p@.len(),
                n as int,
            ));
            i = i + p.len();
        } else {
            out.push(v[i]);
            assert(rest.drop_first() =~= v@.subrange(i + 1, n as int));
            i = i + 1;
        }
    }
    assert(v@.subrange(n as int, n as int) =~= Seq::<char>::empty());
    assert(out@ =~= out@ + Seq::<char>::empty());
    out
}

/// A prefix of `replace_all(t, p, rep)` that holds no `p[0]` was copied from
/// `t` unchanged, when `rep` begins with `p[0]`.
pub proof fn lemma_replace_copies_prefix(t: Seq<char>, p: Seq<char>, rep: Seq<char>, m: int)
    requires
        p.len() > 0,
        rep.len() > 0,
        rep[0] == p[0],
        0 <= m <= replace_all(t, p, rep).len(),
        forall|k: int| 0 <= k < m ==> replace_all(t, p, rep)[k] != p[0],
    ensures
        m <= t.len(),
        replace_all(t, p, rep).take(m) == t.take(m),
    decreases t.len(),
{
    let out = replace_all(t, p, rep);
    if m == 0 {
        assert(out.take(0) =~= t.take(0));
    } else if t.len() == 0 {
    } else if occurs_at(t, p, 0) {
        let r1 = replace_all(t.subrange(p.len() as int, t.len() as int), p, rep);
        assert(out == rep + r1);
        assert(out[0] == rep[0]);
    } else {
        let t1 = t.drop_first();
        let r1 = replace_all(t1, p, rep);
        assert(out == seq![t[0]] + r1);
        assert forall|k: int| 0 <= k < m - 1 implies r1[k] != p[0] by {
            assert(out[k + 1] == r1[k]);
        }
        lemma_replace_copies_prefix(t1, p, rep, m - 1);
        assert(out.take(m) =~= seq![t[0]] + r1.take(m - 1));
        assert(t.take(m) =~= seq![t[0]] + t1.take(m - 1));
    }
}

/// Replacing every `p` by `rep` leaves no `p` behind, when `rep` holds none,
/// begins with the first character of `p` and ends with its last, and `p`
/// holds its first character only at its start and its last only at its end.
pub proof fn lemma_replace_leaves_no_pattern(s: Seq<char>, p: Seq<char>, rep: Seq<char>)
    requires
        p.len() > 0,
        forall|k: int| 0 < k < p.len() ==> #[trigger] p[k] != p[0],
        forall|k: int| 0 <= k < p.len() - 1 ==> #[trigger] p[k] != p[p.len() - 1],
        rep.len() > 0,
        rep[0] == p[0],
        rep[rep.len() - 1] == p[p.len() - 1],
        !contains_seq(rep, p),
    ensures
        !contains_seq(replace_all(s, p, rep), p),
    decreases s.len(),
{
    let n = p.len() as int;
    let out = replace_all(s, p, rep);
    if s.len() == 0 {
        assert forall|i: int| !#[trigger] occurs_at(out, p, i) by {}
    } else if occurs_at(s, p, 0) {
        let rest = s.subrange(n, s.len() as int);
        lemma_replace_leaves_no_pattern(rest, p, rep);
        let r1 = replace_all(rest, p, rep);
        assert(out == rep + r1);
        let m = rep.len() as int;
        assert forall|i: int| !#[trigger] occurs_at(out, p, i) by {
            if occurs_at(out, p, i) {
                if i + n <= m {
                    assert(out.subrange(i, i + n) =~= rep.subrange(i, i + n));
                    assert(occurs_at(rep, p, i));
                } else if i >= m {
                    assert(out.subrange(i, i + n) =~= r1.subrange(i - m, i - m + n));
                    assert(occurs_at(r1, p, i - m));
                } else {
                    let k = m - 1 - i;
                    assert(out.subrange(i, i + n)[k] == out[m - 1]);
                    assert(out[m - 1] == rep[m - 1]);
                    assert(p[k] == p[n - 1]);
                }
            }
        }
    } else {
        let t1 = s.drop_first();
        lemma_replace_leaves_no_pattern(t1, p, rep);
        let r1 = replace_all(t1, p, rep);
        assert(out == seq![s[0]] + r1);
        assert forall|i: int| !#[trigger] occurs_at(out, p, i) by {
            if occurs_at(out, p, i) {
                if i >= 1 {
                    assert(out.subrange(i, i + n) =~= r1.subrange(i - 1, i - 1 + n));
                    assert(occurs_at(r1, p, i - 1));
                } else {
                    let w = out.subrange(0, n);
                    assert forall|k: int| 0 <= k < n - 1 implies r1[k] != p[0] by {
                        assert(w[k + 1] == out[k + 1]);
                        assert(out[k + 1] == r1[k]);
                    }
                    lemma_replace_copies_prefix(t1, p, rep, n - 1);
                    assert forall|k: int| 0 <= k < n implies s[k] == p[k] by {
                        assert(w[k] == out[k]);
                        if k > 0 {
                            assert(out[k] == r1[k - 1]);
                            assert(r1.take(n - 1)[k - 1] == t1.take(n - 1)[k - 1]);
                        }
                    }
                    assert(s.subrange(0, n) =~= p);
                }
            }
        }
    }
}

} // verus!
