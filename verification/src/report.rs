//! Report generation: the scan result, as JSON, is injected into a
//! single-file HTML template at its data sentinel.
use vstd::prelude::*;
use crate::error::CytraceError;
use crate::text::{
    chars_of, contains_chars, contains_seq, lemma_replace_leaves_no_pattern, occurs_at,
    push_chars, push_str, replace_all, replace_chars, string_from_chars,
};

verus! {

/// The injection point that a report template carries.
pub const DATA_SENTINEL: &'static str = "<!--CYTRACE_DATA-->";

/// The two characters `</` that would end a `<script>` element.
pub open spec fn close_tag_start() -> Seq<char> {
    seq!['<', '/']
}

/// The escape of `</`.
pub open spec fn esc_slash() -> Seq<char> {
    seq!['<', '\\', '/']
}

/// The escape of U+2028.
pub open spec fn esc_2028() -> Seq<char> {
    seq!['\\', 'u', '2', '0', '2', '8']
}

/// The escape of U+2029.
pub open spec fn esc_2029() -> Seq<char> {
    seq!['\\', 'u', '2', '0', '2', '9']
}

/// JSON text made safe to stand inside an HTML `<script>` element: each `</`
/// becomes `<\/`, and the JavaScript line terminators U+2028 and U+2029 become
/// the escapes `\u2028` and `\u2029`.
pub open spec fn escaped(s: Seq<char>) -> Seq<char>
    decreases s.len(),
{
    if s.len() == 0 {
        s
    } else if s.len() >= 2 && s[0] == '<' && s[1] == '/' {
        esc_slash() + escaped(s.subrange(2, s.len() as int))
    } else if s[0] == '\u{2028}' {
        esc_2028() + escaped(s.drop_first())
    } else if s[0] == '\u{2029}' {
        esc_2029() + escaped(s.drop_first())
    } else {
        seq![s[0]] + escaped(s.drop_first())
    }
}

/// The opening tag of the data element.
pub open spec fn data_open() -> Seq<char> {
    "<script id=\"cytrace-data\" type=\"application/json\">"@
}

/// The closing tag of the data element.
pub open spec fn data_close() -> Seq<char> {
    "</script>"@
}

/// The data element that carries the escaped JSON.
pub open spec fn data_tag(json: Seq<char>) -> Seq<char> {
    data_open() + escaped(json) + data_close()
}

/// The message of the error for a template without the sentinel.
pub open spec fn missing_sentinel_text() -> Seq<char> {
    "報表樣板缺少注入點 "@ + DATA_SENTINEL@
}

/// The first character of `escaped(s)`.
proof fn lemma_escaped_head(s: Seq<char>)
    requires
        s.len() > 0,
    ensures
        escaped(s).len() > 0,
        escaped(s)[0] == (if s[0] == '\u{2028}' || s[0] == '\u{2029}' { '\\' } else { s[0] }),
{
}

/// No `</` and no line terminator is left in `escaped(s)`.
proof fn lemma_escaped_clean(s: Seq<char>)
    ensures
        forall|i: int|
            0 <= i < escaped(s).len() ==> #[trigger] escaped(s)[i] != '\u{2028}' && escaped(
                s,
            )[i] != '\u{2029}',
        forall|i: int|
            0 <= i < escaped(s).len() - 1 ==> !(#[trigger] escaped(s)[i] == '<' && escaped(s)[i
                + 1] == '/'),
    decreases s.len(),
{
    if s.len() == 0 {
    } else if s.len() >= 2 && s[0] == '<' && s[1] == '/' {
        let rest = s.subrange(2, s.len() as int);
        lemma_escaped_clean(rest);
        let e = escaped(s);
        assert(e == esc_slash() + escaped(rest));
        assert forall|i: int| 0 <= i < e.len() - 1 implies !(#[trigger] e[i] == '<' && e[i + 1]
            == '/') by {
            if i >= 3 {
                assert(e[i] == escaped(rest)[i - 3]);
                assert(e[i + 1] == escaped(rest)[i - 2]);
            }
        }
        assert forall|i: int| 0 <= i < e.len() implies #[trigger] e[i] != '\u{2028}' && e[i]
            != '\u{2029}' by {
            if i >= 3 {
                assert(e[i] == escaped(rest)[i - 3]);
            }
        }
    } else {
        let rest = s.drop_first();
        lemma_escaped_clean(rest);
        let e = escaped(s);
        let head: Seq<char> = if s[0] == '\u{2028}' {
            esc_2028()
        } else if s[0] == '\u{2029}' {
            esc_2029()
        } else {
            seq![s[0]]
        };
        assert(e == head + escaped(rest));
        let h = head.len() as int;
        if rest.len() > 0 {
            lemma_escaped_head(rest);
        }
        assert forall|i: int| 0 <= i < e.len() - 1 implies !(#[trigger] e[i] == '<' && e[i + 1]
            == '/') by {
            if i >= h {
                assert(e[i] == escaped(rest)[i - h]);
                assert(e[i + 1] == escaped(rest)[i - h + 1]);
            } else if i == h - 1 {
                assert(e[i + 1] == escaped(rest)[0]);
                if e[i] == '<' {
                    assert(s[0] == '<');
                    assert(s.len() < 2 || s[1] != '/');
                    assert(rest[0] == s[1]);
                }
            }
        }
        assert forall|i: int| 0 <= i < e.len() implies #[trigger] e[i] != '\u{2028}' && e[i]
            != '\u{2029}' by {
            if i >= h {
                assert(e[i] == escaped(rest)[i - h]);
            }
        }
    }
}

/// Escapes JSON text for an HTML `<script>` element.
pub fn escape_for_script(json: &str) -> (r: String)
    ensures
        r@ == escaped(json@),
{
    let v = chars_of(json);
    let n = v.len();
    let mut out: Vec<char> = Vec::new();
    let mut i: usize = 0;
    assert(v@.subrange(0, n as int) =~= v@);
    while i < n
        invariant
            n == v@.len(),
            v@ == json@,
            i <= n,
            escaped(v@) == out@ + escaped(v@.subrange(i as int, n as int)),
        decreases n - i,
    {
        let ghost rest = v@.subrange(i as int, n as int);
        let c = v[i];
        if c == '<' && i + 1 < n && v[i + 1] == '/' {
            out.push('<');
            out.push('\\');
            out.push('/');
            assert(rest.subrange(2, rest.len() as int) =~= v@.subrange(i + 2, n as int));
            i = i + 2;
        } else {
            if c == '\u{2028}' {
                out.push('\\');
                out.push('u');
                out.push('2');
                out.push('0');
                out.push('2');
                out.push('8');
            } else if c == '\u{2029}' {
                out.push('\\');
                out.push('u');
                out.push('2');
                out.push('0');
                out.push('2');
                out.push('9');
            } else {
                out.push(c);
            }
            assert(rest.drop_first() =~= v@.subrange(i + 1, n as int));
            i = i + 1;
        }
        assert(escaped(v@) == out@ + escaped(v@.subrange(i as int, n as int)));
    }
    assert(v@.subrange(n as int, n as int) =~= Seq::<char>::empty());
    assert(out@ =~= out@ + Seq::<char>::empty());
    string_from_chars(&out)
}

/// Injects the scan-result JSON into `template` at every occurrence of
/// [`DATA_SENTINEL`], as an escaped `<script id="cytrace-data">` element.
/// A template without the sentinel is a configuration error.
pub fn render_with_template(json: &str, template: &str) -> (r: Result<String, CytraceError>)
    ensures
        contains_seq(template@, DATA_SENTINEL@) ==> r == Ok::<String, CytraceError>(r->Ok_0)
            && r->Ok_0@ == replace_all(template@, DATA_SENTINEL@, data_tag(json@)),
        !contains_seq(template@, DATA_SENTINEL@) ==> (r matches Err(CytraceError::Config(m))
            && m@ == missing_sentinel_text()),
{
    let t = chars_of(template);
    let sentinel = chars_of(DATA_SENTINEL);
    proof {
        reveal_strlit("<!--CYTRACE_DATA-->");
    }
    if !contains_chars(&t, &sentinel) {
        let mut m: Vec<char> = Vec::new();
        push_str(&mut m, "報表樣板缺少注入點 ");
        push_chars(&mut m, &sentinel);
        return Err(CytraceError::Config(string_from_chars(&m)));
    }
    let mut tag: Vec<char> = Vec::new();
    push_str(&mut tag, "<script id=\"cytrace-data\" type=\"application/json\">");
    let body = escape_for_script(json);
    push_str(&mut tag, body.as_str());
    push_str(&mut tag, "</script>");
    let out = replace_chars(&t, &sentinel, &tag);
    Ok(string_from_chars(&out))
}

/// The data injected into a report cannot end its `<script>` element early,
/// nor break a JavaScript line: the escaped JSON holds no `</`, no U+2028 and
/// no U+2029.
pub proof fn law_escaped_json_cannot_close_the_script(json: Seq<char>)
    ensures
        !contains_seq(escaped(json), close_tag_start()),
        forall|i: int|
            0 <= i < escaped(json).len() ==> #[trigger] escaped(json)[i] != '\u{2028}'
                && escaped(json)[i] != '\u{2029}',
{
    lemma_escaped_clean(json);
    let e = escaped(json);
    if contains_seq(e, close_tag_start()) {
        let i = choose|i: int| #[trigger] occurs_at(e, close_tag_start(), i);
        assert(e.subrange(i, i + 2)[0] == e[i]);
        assert(e.subrange(i, i + 2)[1] == e[i + 1]);
    }
}

/// An occurrence in a suffix of `s` is an occurrence in `s`.
proof fn lemma_occurs_in_suffix(s: Seq<char>, p: Seq<char>, j: int, i: int)
    requires
        0 <= j <= s.len(),
        occurs_at(s.subrange(j, s.len() as int), p, i),
    ensures
        occurs_at(s, p, i + j),
{
    assert(s.subrange(i + j, i + j + p.len()) =~= s.subrange(j, s.len() as int).subrange(
        i,
        i + p.len(),
    ));
}

/// A prefix of `escaped(t)` that holds neither `<` nor a backslash was copied from
/// `t` unchanged.
proof fn lemma_escape_copies_prefix(t: Seq<char>, m: int)
    requires
        0 <= m <= escaped(t).len(),
        forall|k: int| 0 <= k < m ==> #[trigger] escaped(t)[k] != '<' && escaped(t)[k] != '\\',
    ensures
        m <= t.len(),
        escaped(t).take(m) == t.take(m),
    decreases t.len(),
{
    let e = escaped(t);
    if m == 0 {
        assert(e.take(0) =~= t.take(0));
    } else if t.len() == 0 {
    } else {
        lemma_escaped_head(t);
        if !(t.len() >= 2 && t[0] == '<' && t[1] == '/') && t[0] != '\u{2028}' && t[0]
            != '\u{2029}' {
            let t1 = t.drop_first();
            let e1 = escaped(t1);
            assert(e == seq![t[0]] + e1);
            assert forall|k: int| 0 <= k < m - 1 implies #[trigger] e1[k] != '<' && e1[k]
                != '\\' by {
                assert(e[k + 1] == e1[k]);
            }
            lemma_escape_copies_prefix(t1, m - 1);
            assert(e.take(m) =~= seq![t[0]] + e1.take(m - 1));
            assert(t.take(m) =~= seq![t[0]] + t1.take(m - 1));
        }
    }
}

/// Escaping brings no new occurrence of a pattern that begins with `<`, has
/// a second character, and holds neither `<` nor a backslash after its start.
proof fn lemma_escape_keeps_pattern_out(s: Seq<char>, p: Seq<char>)
    requires
        p.len() >= 2,
        p[0] == '<',
        forall|k: int| 0 < k < p.len() ==> #[trigger] p[k] != '<' && p[k] != '\\',
        !contains_seq(s, p),
    ensures
        !contains_seq(escaped(s), p),
    decreases s.len(),
{
    let n = p.len() as int;
    let e = escaped(s);
    if s.len() == 0 {
        assert forall|i: int| !#[trigger] occurs_at(e, p, i) by {}
    } else {
        let (h, j): (Seq<char>, int) = if s.len() >= 2 && s[0] == '<' && s[1] == '/' {
            (esc_slash(), 2)
        } else if s[0] == '\u{2028}' {
            (esc_2028(), 1)
        } else if s[0] == '\u{2029}' {
            (esc_2029(), 1)
        } else {
            (seq![s[0]], 1)
        };
        let rest = s.subrange(j, s.len() as int);
        assert forall|i: int| !#[trigger] occurs_at(rest, p, i) by {
            if occurs_at(rest, p, i) {
                lemma_occurs_in_suffix(s, p, j, i);
            }
        }
        lemma_escape_keeps_pattern_out(rest, p);
        let er = escaped(rest);
        if j == 2 {
            assert(rest =~= s.subrange(2, s.len() as int));
        } else {
            assert(rest =~= s.drop_first());
        }
        assert(e == h + er);
        let hl = h.len() as int;
        assert forall|i: int| !#[trigger] occurs_at(e, p, i) by {
            if occurs_at(e, p, i) {
                let w = e.subrange(i, i + n);
                if i >= hl {
                    assert(w =~= er.subrange(i - hl, i - hl + n));
                    assert(occurs_at(er, p, i - hl));
                } else if hl > 1 {
                    assert(w[0] == e[i]);
                    assert(w[1] == e[i + 1]);
                    assert(e[i] == h[i]);
                    if i + 1 < hl {
                        assert(e[i + 1] == h[i + 1]);
                    }
                } else {
                    assert(w[0] == e[0]);
                    assert(e[0] == s[0]);
                    assert forall|k: int| 0 <= k < n - 1 implies #[trigger] er[k] != '<' && er[k]
                        != '\\' by {
                        assert(w[k + 1] == e[k + 1]);
                        assert(e[k + 1] == er[k]);
                    }
                    lemma_escape_copies_prefix(rest, n - 1);
                    assert forall|k: int| 0 <= k < n implies s[k] == p[k] by {
                        assert(w[k] == e[k]);
                        if k > 0 {
                            assert(e[k] == er[k - 1]);
                            assert(er.take(n - 1)[k - 1] == rest.take(n - 1)[k - 1]);
                        }
                    }
                    assert(s.subrange(0, n) =~= p);
                    assert(occurs_at(s, p, 0));
                }
            }
        }
    }
}

/// The characters of the sentinel that the proofs use.
proof fn lemma_sentinel_shape()
    ensures
        DATA_SENTINEL@.len() == 19,
        DATA_SENTINEL@[0] == '<',
        DATA_SENTINEL@[1] == '!',
        DATA_SENTINEL@[18] == '>',
        forall|k: int| 0 < k < 19 ==> #[trigger] DATA_SENTINEL@[k] != '<' && DATA_SENTINEL@[k] != '\\',
        forall|k: int| 0 <= k < 18 ==> #[trigger] DATA_SENTINEL@[k] != '>',
{
    reveal_strlit("<!--CYTRACE_DATA-->");
}

/// The data element holds no sentinel when the JSON holds none.
proof fn lemma_tag_has_no_sentinel(json: Seq<char>)
    requires
        !contains_seq(json, DATA_SENTINEL@),
    ensures
        !contains_seq(data_tag(json), DATA_SENTINEL@),
        data_tag(json).len() > 0,
        data_tag(json)[0] == '<',
        data_tag(json)[data_tag(json).len() - 1] == '>',
{
    reveal_strlit("<script id=\"cytrace-data\" type=\"application/json\">");
    reveal_strlit("</script>");
    lemma_sentinel_shape();
    let p = DATA_SENTINEL@;
    let n = 19int;
    let a = data_open();
    let b = data_close();
    assert(a.len() == 50);
    assert(b.len() == 9);
    assert(forall|k: int| 0 <= k < a.len() ==> #[trigger] a[k] != '!');
    assert(forall|k: int| 0 <= k < b.len() ==> #[trigger] b[k] != '!');
    assert(a[49] == '>');
    assert(b[0] == '<');
    assert(b[8] == '>');
    assert(a[0] == '<');
    lemma_escape_keeps_pattern_out(json, p);
    let e = escaped(json);
    let el = e.len() as int;
    let r = data_tag(json);
    assert(r == a + e + b);
    assert(r[0] == a[0]);
    assert(r[r.len() - 1] == b[8]);
    assert forall|i: int| !#[trigger] occurs_at(r, p, i) by {
        if occurs_at(r, p, i) {
            let w = r.subrange(i, i + n);
            if i + n <= 50 {
                assert(w[1] == r[i + 1]);
                assert(r[i + 1] == a[i + 1]);
            } else if i < 50 {
                let k = 49 - i;
                assert(w[k] == r[49]);
                assert(r[49] == a[49]);
            } else if i + n <= 50 + el {
                assert(w =~= e.subrange(i - 50, i - 50 + n));
                assert(occurs_at(e, p, i - 50));
            } else if i < 50 + el {
                let k = 50 + el - i;
                assert(w[k] == r[50 + el]);
                assert(r[50 + el] == b[0]);
            } else {
                assert(w[1] == r[i + 1]);
                assert(r[i + 1] == b[i + 1 - 50 - el]);
            }
        }
    }
}

/// Rendering leaves no sentinel in the report when the JSON holds none: the
/// data element replaced every one, and the replacement cannot form a new one.
pub proof fn law_rendered_report_has_no_sentinel(template: Seq<char>, json: Seq<char>)
    requires
        !contains_seq(json, DATA_SENTINEL@),
    ensures
        !contains_seq(replace_all(template, DATA_SENTINEL@, data_tag(json)), DATA_SENTINEL@),
{
    lemma_sentinel_shape();
    lemma_tag_has_no_sentinel(json);
    let p = DATA_SENTINEL@;
    assert(p[p.len() - 1] == '>');
    lemma_replace_leaves_no_pattern(template, p, data_tag(json));
}

} // verus!
