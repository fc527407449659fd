//! API errors of the web service: language negotiation, error kinds with their
//! HTTP status and message key, and the mapping from core errors.
use vstd::prelude::*;

use crate::error::CytraceError;
use crate::i18n::{interpolated, vars_view, Catalog};
use crate::text::{
    ascii_lower, chars_of, field_end, find_field_end, has_prefix, lemma_field_end, push_str, slice_chars,
    starts_with_chars, str_view, string_from_chars, to_ascii_lower, trim, trim_chars,
};

verus! {

/// The negotiated language of a request.
#[derive(Debug, Clone, Copy, PartialEq, Eq, Structural)]
pub enum Lang {
    ZhTw,
    EnUs,
}

/// The language a code names: English when, trimmed and in lower case, it
/// starts with "en"; Traditional Chinese otherwise.
pub open spec fn lang_of_code(code: Seq<char>) -> Lang {
    if has_prefix(ascii_lower(trim(code)), "en"@) {
        Lang::EnUs
    } else {
        Lang::ZhTw
    }
}

/// The value of the first `lang=` pair among the `&`-separated pairs of `q`
/// that start at or after `from`.
pub open spec fn query_lang_from(q: Seq<char>, from: int) -> Option<Seq<char>>
    decreases q.len() - from,
{
    if from < 0 || from > q.len() {
        None
    } else {
        let e = field_end(q, '&', from);
        let pair = q.subrange(from, e);
        if has_prefix(pair, "lang="@) {
            Some(pair.skip(5))
        } else if from <= e && e < q.len() {
            query_lang_from(q, e + 1)
        } else {
            None
        }
    }
}

/// The language of the first entry of an `Accept-Language` value.
pub open spec fn header_lang(al: Option<Seq<char>>) -> Lang {
    match al {
        Some(a) => lang_of_code(a.subrange(0, field_end(a, ',', 0))),
        None => Lang::ZhTw,
    }
}

/// The negotiated language: `?lang=` first, then `Accept-Language`, then zh-TW.
pub open spec fn negotiated(query: Option<Seq<char>>, accept_language: Option<Seq<char>>) -> Lang {
    match query {
        Some(q) => match query_lang_from(q, 0) {
            Some(v) => lang_of_code(v),
            None => header_lang(accept_language),
        },
        None => header_lang(accept_language),
    }
}

impl Lang {
    /// The language a code names ("en…" in any case is English, anything else zh-TW).
    pub fn from_code(code: &[char]) -> (r: Lang)
        ensures
            r == lang_of_code(code@),
    {
        let t = to_ascii_lower(&trim_chars(code));
        let en = chars_of("en");
        if starts_with_chars(&t, &en) {
            Lang::EnUs
        } else {
            Lang::ZhTw
        }
    }

    /// Negotiates the language of a request from its query string and its
    /// `Accept-Language` header: `?lang=` wins, then the first header entry, then zh-TW.
    pub fn negotiate(query: Option<&str>, accept_language: Option<&str>) -> (r: Lang)
        ensures
            r == negotiated(str_view(query), str_view(accept_language)),
    {
        if let Some(q) = query {
            let qs = chars_of(q);
            let prefix = chars_of("lang=");
            proof {
                reveal_strlit("lang=");
            }
            let mut from: usize = 0;
            loop
                invariant
                    qs@ == q@,
                    str_view(query) == Some(q@),
                    prefix@ == "lang="@,
                    prefix@.len() == 5,
                    from <= qs@.len(),
                    query_lang_from(q@, 0) == query_lang_from(q@, from as int),
                ensures
                    query_lang_from(q@, 0) is None,
                decreases qs@.len() - from,
            {
                let e = find_field_end(&qs, '&', from);
                let pair = slice_chars(&qs, from, e);
                if starts_with_chars(&pair, &prefix) {
                    let v = slice_chars(&pair, 5, pair.len());
                    assert(v@ == pair@.skip(5));
                    assert(query_lang_from(q@, from as int) == Some(pair@.skip(5)));
                    assert(str_view(query) == Some(q@));
                    let r = Lang::from_code(&v);
                    assert(r == negotiated(str_view(query), str_view(accept_language)));
                    return r;
                }
                if e < qs.len() {
                    from = e + 1;
                } else {
                    break ;
                }
            }
        }
        if let Some(al) = accept_language {
            let cs = chars_of(al);
            let e = find_field_end(&cs, ',', 0);
            let first = slice_chars(&cs, 0, e);
            return Lang::from_code(&first);
        }
        Lang::ZhTw
    }
}

/// Error kinds: the five core kinds and those of the web service.
#[derive(Debug, Clone, Copy, PartialEq, Eq, Structural)]
pub enum ErrorKind {
    Engine,
    Parse,
    Io,
    Config,
    DbMissing,
    NotFound,
    Internal,
    Auth,
    Csrf,
    RateLimited,
    Validation,
}

impl ErrorKind {
    /// The wire name of this kind.
    pub open spec fn name(self) -> Seq<char> {
        match self {
            ErrorKind::Engine => "engine"@,
            ErrorKind::Parse => "parse"@,
            ErrorKind::Io => "io"@,
            ErrorKind::Config => "config"@,
            ErrorKind::DbMissing => "db_missing"@,
            ErrorKind::NotFound => "not_found"@,
            ErrorKind::Internal => "internal"@,
            ErrorKind::Auth => "auth"@,
            ErrorKind::Csrf => "csrf"@,
            ErrorKind::RateLimited => "rate_limited"@,
            ErrorKind::Validation => "validation"@,
        }
    }

    /// The HTTP status code of this kind.
    pub open spec fn code(self) -> u16 {
        match self {
            ErrorKind::NotFound => 404,
            ErrorKind::DbMissing => 503,
            ErrorKind::Auth => 401,
            ErrorKind::Csrf => 403,
            ErrorKind::RateLimited => 429,
            ErrorKind::Validation => 400,
            _ => 500,
        }
    }

    /// The wire name of this kind.
    pub fn as_str(self) -> (r: &'static str)
        ensures
            r@ == self.name(),
    {
        match self {
            ErrorKind::Engine => "engine",
            ErrorKind::Parse => "parse",
            ErrorKind::Io => "io",
            ErrorKind::Config => "config",
            ErrorKind::DbMissing => "db_missing",
            ErrorKind::NotFound => "not_found",
            ErrorKind::Internal => "internal",
            ErrorKind::Auth => "auth",
            ErrorKind::Csrf => "csrf",
            ErrorKind::RateLimited => "rate_limited",
            ErrorKind::Validation => "validation",
        }
    }

    /// The HTTP status code of this kind.
    pub fn status(self) -> (r: u16)
        ensures
            r == self.code(),
    {
        match self {
            ErrorKind::NotFound => 404,
            ErrorKind::DbMissing => 503,
            ErrorKind::Auth => 401,
            ErrorKind::Csrf => 403,
            ErrorKind::RateLimited => 429,
            ErrorKind::Validation => 400,
            _ => 500,
        }
    }

    /// The message key of this kind: `server.err.` and its wire name.
    pub open spec fn i18n_key_text(self) -> Seq<char> {
        "server.err."@ + self.name()
    }

    /// The message key of this kind: `server.err.` and its wire name.
    pub fn i18n_key(self) -> (r: String)
        ensures
            r@ == self.i18n_key_text(),
    {
        let mut out: Vec<char> = Vec::new();
        push_str(&mut out, "server.err.");
        push_str(&mut out, self.as_str());
        string_from_chars(&out)
    }
}

/// An API error. `detail` is raw information for audit and debugging, kept
/// as it came; the message comes from the locale catalog.
#[derive(Debug)]
pub struct ApiError {
    pub lang: Lang,
    pub kind: ErrorKind,
    pub detail: Option<String>,
    /// The `Retry-After` seconds of a 429 answer.
    pub retry_after: Option<u64>,
}

/// The error kind of a core error.
pub open spec fn kind_of_core(err: CytraceError) -> ErrorKind {
    match err {
        CytraceError::Engine(_) => ErrorKind::Engine,
        CytraceError::Parse(_) => ErrorKind::Parse,
        CytraceError::Io(_) => ErrorKind::Io,
        CytraceError::Config(_) => ErrorKind::Config,
        CytraceError::DbMissing(_) => ErrorKind::DbMissing,
    }
}

impl ApiError {
    /// An error of `kind`, in `lang`, with no detail and no retry hint.
    pub fn new(lang: Lang, kind: ErrorKind) -> (r: ApiError)
        ensures
            r.lang == lang,
            r.kind == kind,
            r.detail is None,
            r.retry_after is None,
    {
        ApiError { lang, kind, detail: None, retry_after: None }
    }

    /// The same error with `detail` attached.
    pub fn with_detail(self, detail: String) -> (r: ApiError)
        ensures
            r.lang == self.lang,
            r.kind == self.kind,
            r.detail == Some(detail),
            r.retry_after == self.retry_after,
    {
        let mut e = self;
        e.detail = Some(detail);
        e
    }

    /// The same error with a `Retry-After` of `secs`.
    pub fn with_retry_after(self, secs: u64) -> (r: ApiError)
        ensures
            r.lang == self.lang,
            r.kind == self.kind,
            r.detail == self.detail,
            r.retry_after == Some(secs),
    {
        let mut e = self;
        e.retry_after = Some(secs);
        e
    }

    /// The localized message of this error: the catalog's text for the
    /// kind's message key. The caller hands in the catalog of `self.lang`.
    pub fn message(&self, catalog: &Catalog) -> (r: String)
        ensures
            r@ == interpolated(catalog.raw_message(self.kind.i18n_key_text()), Seq::empty()),
    {
        let key = self.kind.i18n_key();
        let no_vars: [(&str, &str); 0] = [];
        let r = catalog.t(key.as_str(), &no_vars);
        assert(vars_view(no_vars@) =~= Seq::<(Seq<char>, Seq<char>)>::empty());
        r
    }

    /// The API error of a core error: the matching kind, with the error's message as detail.
    pub fn from_core(lang: Lang, err: &CytraceError) -> (r: ApiError)
        ensures
            r.lang == lang,
            r.kind == kind_of_core(*err),
            r.detail matches Some(d) && d@ == err.text(),
            r.retry_after is None,
    {
        let kind = match err {
            CytraceError::Engine(_) => ErrorKind::Engine,
            CytraceError::Parse(_) => ErrorKind::Parse,
            CytraceError::Io(_) => ErrorKind::Io,
            CytraceError::Config(_) => ErrorKind::Config,
            CytraceError::DbMissing(_) => ErrorKind::DbMissing,
        };
        ApiError::new(lang, kind).with_detail(err.message())
    }
}

/// The end of the first `sep`-separated field of a text that holds no `sep`
/// before `n`, and `sep` at `n` if `n` is not its end.
proof fn lemma_first_field_end(s: Seq<char>, sep: char, n: int)
    requires
        0 <= n <= s.len(),
        forall|k: int| 0 <= k < n ==> #[trigger] s[k] != sep,
        n < s.len() ==> s[n] == sep,
    ensures
        field_end(s, sep, 0) == n,
{
    lemma_field_end(s, sep, 0);
    let e = field_end(s, sep, 0);
    if e < n {
        assert(s[e] == sep);
    }
    if e > n {
        assert(s[n] != sep);
    }
}

/// Only the first entry of `Accept-Language` counts: whatever follows the
/// first comma never changes the negotiated language.
pub proof fn law_only_first_accept_language_entry_counts(
    query: Option<Seq<char>>,
    first: Seq<char>,
    rest: Seq<char>,
)
    requires
        forall|k: int| 0 <= k < first.len() ==> #[trigger] first[k] != ',',
    ensures
        negotiated(query, Some(first + seq![','] + rest)) == negotiated(query, Some(first)),
{
    let a = first + seq![','] + rest;
    assert forall|k: int| 0 <= k < first.len() implies #[trigger] a[k] != ',' by {
        assert(a[k] == first[k]);
    }
    lemma_first_field_end(a, ',', first.len() as int);
    lemma_first_field_end(first, ',', first.len() as int);
    assert(a.subrange(0, first.len() as int) =~= first);
    assert(first.subrange(0, first.len() as int) =~= first);
}

/// Without a `lang=` choice in the query, a one-entry `Accept-Language` names
/// the language by its code.
pub proof fn law_header_code_decides_without_query(code: Seq<char>)
    requires
        forall|k: int| 0 <= k < code.len() ==> #[trigger] code[k] != ',',
    ensures
        negotiated(None, Some(code)) == lang_of_code(code),
        negotiated(None, None) == Lang::ZhTw,
{
    lemma_first_field_end(code, ',', code.len() as int);
    assert(code.subrange(0, code.len() as int) =~= code);
}

/// A query `lang=<code>` decides the language, whatever `Accept-Language` says.
pub proof fn law_query_lang_overrides_header(code: Seq<char>, accept_language: Option<Seq<char>>)
    requires
        forall|k: int| 0 <= k < code.len() ==> #[trigger] code[k] != '&',
    ensures
        negotiated(Some("lang="@ + code), accept_language) == lang_of_code(code),
{
    reveal_strlit("lang=");
    let q = "lang="@ + code;
    assert forall|k: int| 0 <= k < q.len() implies #[trigger] q[k] != '&' by {
        if k >= 5 {
            assert(q[k] == code[k - 5]);
        }
    }
    lemma_first_field_end(q, '&', q.len() as int);
    assert(q.subrange(0, q.len() as int) =~= q);
    assert(q.take(5) =~= "lang="@);
    assert(q.skip(5) =~= code);
}

/// A code that starts with `en` names English and one that starts with `zh`
/// names Traditional Chinese, in any ASCII case of those two letters.
pub proof fn law_code_prefix_names_the_language(rest: Seq<char>)
    ensures
        lang_of_code(seq!['e', 'n'] + rest) == Lang::EnUs,
        lang_of_code(seq!['E', 'N'] + rest) == Lang::EnUs,
        lang_of_code(seq!['z', 'h'] + rest) == Lang::ZhTw,
{
    reveal_strlit("en");
    let t1 = seq!['e', 'n'] + rest;
    let t2 = seq!['E', 'N'] + rest;
    let t3 = seq!['z', 'h'] + rest;
    lemma_trim_keeps_start(t1);
    lemma_trim_keeps_start(t2);
    lemma_trim_keeps_start(t3);
    assert(ascii_lower(trim(t1)).take(2) =~= "en"@);
    assert(ascii_lower(trim(t2)).take(2) =~= "en"@);
    let l3 = ascii_lower(trim(t3));
    assert(l3[0] == 'z');
    assert(!has_prefix(l3, "en"@)) by {
        if has_prefix(l3, "en"@) {
            assert(l3.take(2)[0] == l3[0]);
            assert("en"@[0] == 'e');
        }
    }
}

/// Trimming a text that starts with two non-blank characters keeps them.
proof fn lemma_trim_keeps_start(t: Seq<char>)
    requires
        t.len() >= 2,
        !crate::text::is_ws(t[0]),
        !crate::text::is_ws(t[1]),
    ensures
        trim(t).len() >= 2,
        trim(t)[0] == t[0],
        trim(t)[1] == t[1],
    decreases t.len(),
{
    assert(crate::text::trim_start(t) == t);
    lemma_trim_end_keeps_start(t);
}

proof fn lemma_trim_end_keeps_start(t: Seq<char>)
    requires
        t.len() >= 2,
        !crate::text::is_ws(t[0]),
        !crate::text::is_ws(t[1]),
    ensures
        crate::text::trim_end(t).len() >= 2,
        crate::text::trim_end(t)[0] == t[0],
        crate::text::trim_end(t)[1] == t[1],
    decreases t.len(),
{
    if crate::text::is_ws(t.last()) {
        let p = t.drop_last();
        assert(p.len() >= 2) by {
            if t.len() == 2 {
                assert(t.last() == t[1]);
            }
        }
        lemma_trim_end_keeps_start(p);
    }
}

/// Field ends are found at the same place in a text read after a prefix.
proof fn lemma_field_end_shift(pre: Seq<char>, q: Seq<char>, sep: char, from: int)
    requires
        0 <= from <= q.len(),
    ensures
        field_end(pre + q, sep, pre.len() + from) == pre.len() + field_end(q, sep, from),
    decreases q.len() - from,
{
    let s = pre + q;
    if from < q.len() {
        assert(s[pre.len() + from] == q[from]);
        if q[from] != sep {
            lemma_field_end_shift(pre, q, sep, from + 1);
        }
    }
}

/// The `lang=` search reads a query after a prefix as it reads the query alone.
proof fn lemma_query_lang_shift(pre: Seq<char>, q: Seq<char>, from: int)
    requires
        0 <= from <= q.len(),
    ensures
        query_lang_from(pre + q, pre.len() + from) == query_lang_from(q, from),
    decreases q.len() - from,
{
    let s = pre + q;
    let o = pre.len() as int;
    lemma_field_end_shift(pre, q, '&', from);
    lemma_field_end(q, '&', from);
    let e = field_end(q, '&', from);
    assert(s.subrange(o + from, o + e) =~= q.subrange(from, e));
    if !has_prefix(q.subrange(from, e), "lang="@) && e < q.len() {
        lemma_query_lang_shift(pre, q, e + 1);
    }
}

/// A query pair other than `lang=` is passed over: the language is the one
/// the pairs after it give.
pub proof fn law_other_query_pairs_are_skipped(
    pair: Seq<char>,
    rest: Seq<char>,
    accept_language: Option<Seq<char>>,
)
    requires
        forall|k: int| 0 <= k < pair.len() ==> #[trigger] pair[k] != '&',
        !has_prefix(pair, "lang="@),
    ensures
        negotiated(Some(pair + seq!['&'] + rest), accept_language) == negotiated(
            Some(rest),
            accept_language,
        ),
{
    let pre = pair + seq!['&'];
    let q = pre + rest;
    assert forall|k: int| 0 <= k < pair.len() implies #[trigger] q[k] != '&' by {
        assert(q[k] == pair[k]);
    }
    assert(q[pair.len() as int] == '&');
    lemma_first_field_end(q, '&', pair.len() as int);
    assert(q.subrange(0, pair.len() as int) =~= pair);
    lemma_query_lang_shift(pre, rest, 0);
}

/// A query whose only pair is not `lang=` leaves the choice to
/// `Accept-Language`, as if there were no query.
pub proof fn law_query_without_lang_falls_back(pair: Seq<char>, accept_language: Option<Seq<char>>)
    requires
        forall|k: int| 0 <= k < pair.len() ==> #[trigger] pair[k] != '&',
        !has_prefix(pair, "lang="@),
    ensures
        negotiated(Some(pair), accept_language) == negotiated(None, accept_language),
{
    lemma_first_field_end(pair, '&', pair.len() as int);
    assert(pair.subrange(0, pair.len() as int) =~= pair);
}

/// The first `lang=` pair of the query decides, whatever pairs follow it.
pub proof fn law_first_lang_pair_wins(
    code: Seq<char>,
    rest: Seq<char>,
    accept_language: Option<Seq<char>>,
)
    requires
        forall|k: int| 0 <= k < code.len() ==> #[trigger] code[k] != '&',
    ensures
        negotiated(Some("lang="@ + code + seq!['&'] + rest), accept_language) == lang_of_code(code),
{
    reveal_strlit("lang=");
    let pair = "lang="@ + code;
    let q = pair + seq!['&'] + rest;
    assert forall|k: int| 0 <= k < pair.len() implies #[trigger] q[k] != '&' by {
        assert(q[k] == pair[k]);
        if k >= 5 {
            assert(pair[k] == code[k - 5]);
        }
    }
    assert(q[pair.len() as int] == '&');
    lemma_first_field_end(q, '&', pair.len() as int);
    assert(q.subrange(0, pair.len() as int) =~= pair);
    assert(pair.take(5) =~= "lang="@);
    assert(pair.skip(5) =~= code);
}

/// Trimming the end of a text that starts with a non-blank character keeps it.
proof fn lemma_trim_end_keeps_first(t: Seq<char>)
    requires
        t.len() >= 1,
        !crate::text::is_ws(t[0]),
    ensures
        crate::text::trim_end(t).len() >= 1,
        crate::text::trim_end(t)[0] == t[0],
    decreases t.len(),
{
    if crate::text::is_ws(t.last()) {
        let p = t.drop_last();
        assert(p.len() >= 1) by {
            if t.len() == 1 {
                assert(t.last() == t[0]);
            }
        }
        lemma_trim_end_keeps_first(p);
    }
}

/// Every other code names Traditional Chinese: one that starts with a
/// non-blank character other than `e` or `E`, and the empty code.
pub proof fn law_other_codes_name_chinese(c: char, rest: Seq<char>)
    requires
        !crate::text::is_ws(c),
        c != 'e',
        c != 'E',
    ensures
        lang_of_code(seq![c] + rest) == Lang::ZhTw,
        lang_of_code(Seq::empty()) == Lang::ZhTw,
{
    reveal_strlit("en");
    let t = seq![c] + rest;
    assert(crate::text::trim_start(t) == t);
    lemma_trim_end_keeps_first(t);
    let l = ascii_lower(trim(t));
    assert(l[0] == crate::text::lower_char(c));
    assert(l[0] != 'e');
    assert(!has_prefix(l, "en"@)) by {
        if has_prefix(l, "en"@) {
            assert(l.take(2)[0] == l[0]);
            assert("en"@[0] == 'e');
        }
    }
    let z = Seq::<char>::empty();
    assert(crate::text::trim_start(z) == z);
    assert(crate::text::trim_end(z) == z);
    assert(ascii_lower(z).len() == 0);
}

} // verus!
