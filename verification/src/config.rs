//! Service settings. Each one comes from its command-line flag, else from its
//! environment variable, else from its default.
use vstd::prelude::*;
use crate::error::CytraceError;
use crate::text::{chars_of, eq_chars, push_str, string_from_chars, string_view, trim, trim_chars};

verus! {

/// The default listening address: loopback only, for safety; a container sets
/// `CYTRACE_BIND=0.0.0.0:8443`.
pub const DEFAULT_BIND: &'static str = "127.0.0.1:8443";

/// The default data directory (a mounted volume in a container).
pub const DEFAULT_DATA_DIR: &'static str = "/data";

/// The resolved settings, as text: the listening address still to be parsed,
/// the data directory, and where the Grype database snapshot lies, if set.
#[derive(Debug)]
pub struct ServerSettings {
    pub bind: String,
    pub data_dir: String,
    pub db_cache_dir: Option<String>,
}

/// The value of the environment variable `name`: that of its first entry.
pub open spec fn env_value(env: Seq<(String, String)>, name: Seq<char>) -> Option<Seq<char>>
    decreases env.len(),
{
    if env.len() == 0 {
        None
    } else if env[0].0@ == name {
        Some(env[0].1@)
    } else {
        env_value(env.drop_first(), name)
    }
}

/// The first of `flag`, `var` and `default` that is given.
pub open spec fn first_given(flag: Option<Seq<char>>, var: Option<Seq<char>>, default: Seq<char>) -> Seq<char> {
    match flag {
        Some(f) => f,
        None => match var {
            Some(v) => v,
            None => default,
        },
    }
}

/// The value of the environment variable `name`, if set.
pub fn env_lookup(env: &[(String, String)], name: &str) -> (r: Option<String>)
    ensures
        string_view(r) == env_value(env@, name@),
{
    let want = chars_of(name);
    let n = env.len();
    let mut i: usize = 0;
    assert(env@.skip(0) =~= env@);
    while i < n
        invariant
            n == env@.len(),
            want@ == name@,
            i <= n,
            env_value(env@, name@) == env_value(env@.skip(i as int), name@),
        decreases n - i,
    {
        assert(env@.skip(i as int)[0] == env@[i as int]);
        let key = chars_of(env[i].0.as_str());
        if eq_chars(&key, &want) {
            return Some(env[i].1.clone());
        }
        assert(env@.skip(i as int).drop_first() =~= env@.skip(i + 1));
        i = i + 1;
    }
    None
}

/// Resolves the settings: the flag over the environment over the default, for
/// the address (`CYTRACE_BIND`) and the data directory (`CYTRACE_DATA_DIR`);
/// the snapshot location comes from `GRYPE_DB_CACHE_DIR` alone.
pub fn resolve_settings(
    bind_flag: Option<String>,
    data_dir_flag: Option<String>,
    env: &[(String, String)],
) -> (r: ServerSettings)
    ensures
        r.bind@ == first_given(string_view(bind_flag), env_value(env@, "CYTRACE_BIND"@), DEFAULT_BIND@),
        r.data_dir@ == first_given(
            string_view(data_dir_flag),
            env_value(env@, "CYTRACE_DATA_DIR"@),
            DEFAULT_DATA_DIR@,
        ),
        string_view(r.db_cache_dir) == env_value(env@, "GRYPE_DB_CACHE_DIR"@),
{
    let bind = match bind_flag {
        Some(b) => b,
        None => match env_lookup(env, "CYTRACE_BIND") {
            Some(v) => v,
            None => DEFAULT_BIND.to_string(),
        },
    };
    let data_dir = match data_dir_flag {
        Some(d) => d,
        None => match env_lookup(env, "CYTRACE_DATA_DIR") {
            Some(v) => v,
            None => DEFAULT_DATA_DIR.to_string(),
        },
    };
    let db_cache_dir = env_lookup(env, "GRYPE_DB_CACHE_DIR");
    ServerSettings { bind, data_dir, db_cache_dir }
}

/// The configuration error for a listening address that does not parse.
pub fn bind_error(bind_raw: &str) -> (r: CytraceError)
    ensures
        r matches CytraceError::Config(m) && m@ == "CYTRACE_BIND 不是合法位址："@ + bind_raw@,
{
    let mut m: Vec<char> = Vec::new();
    push_str(&mut m, "CYTRACE_BIND 不是合法位址：");
    push_str(&mut m, bind_raw);
    CytraceError::Config(string_from_chars(&m))
}

/// The default session lifetime in hours: 12, absolute.
pub const DEFAULT_SESSION_TTL_HOURS: u64 = 12;

/// Whether `c` is an ASCII digit.
pub open spec fn is_digit(c: char) -> bool {
    '0' <= c <= '9'
}

/// The value of a text of decimal digits.
pub open spec fn digits_value(d: Seq<char>) -> int
    decreases d.len(),
{
    if d.len() == 0 {
        0
    } else {
        digits_value(d.drop_last()) * 10 + (d.last() as int - '0' as int)
    }
}

/// Whether `d` is one ASCII digit or more, and nothing else.
pub open spec fn all_digits(d: Seq<char>) -> bool {
    d.len() > 0 && forall|i: int| 0 <= i < d.len() ==> is_digit(#[trigger] d[i])
}

/// The digits of an unsigned number's text: the text after an optional `+`.
pub open spec fn unsigned_digits(t: Seq<char>) -> Seq<char> {
    if t.len() > 0 && t[0] == '+' {
        t.skip(1)
    } else {
        t
    }
}

/// The unsigned integer a text names, as `u64::from_str` reads it: an optional
/// `+`, then at least one ASCII digit and nothing else, with a value that fits
/// in a `u64`.
pub open spec fn u64_text_value(t: Seq<char>) -> Option<int> {
    if all_digits(unsigned_digits(t)) && digits_value(unsigned_digits(t)) <= u64::MAX {
        Some(digits_value(unsigned_digits(t)))
    } else {
        None
    }
}

/// The session lifetime in seconds for the hours text `hours` (trimmed):
/// the hours times 3600, saturating; without the variable, 12 hours.
pub open spec fn ttl_secs_of(hours: Option<Seq<char>>) -> Result<int, Seq<char>> {
    match hours {
        None => Ok(DEFAULT_SESSION_TTL_HOURS * 3600),
        Some(h) => match u64_text_value(trim(h)) {
            Some(v) => Ok(if v * 3600 > u64::MAX { u64::MAX as int } else { v * 3600 }),
            None => Err("CYTRACE_SESSION_TTL_HOURS 不是整數："@ + h),
        },
    }
}

proof fn lemma_digits_value_grows(d: Seq<char>, j: int)
    requires
        0 <= j <= d.len(),
        forall|i: int| 0 <= i < d.len() ==> is_digit(#[trigger] d[i]),
    ensures
        0 <= digits_value(d.take(j)) <= digits_value(d),
    decreases d.len(),
{
    if d.len() > 0 {
        let p = d.drop_last();
        assert forall|i: int| 0 <= i < p.len() implies is_digit(#[trigger] p[i]) by {
            assert(p[i] == d[i]);
        }
        if j == d.len() {
            assert(d.take(j) =~= d);
            lemma_digits_value_grows(p, p.len() as int);
            assert(p.take(p.len() as int) =~= p);
        } else {
            lemma_digits_value_grows(p, j);
            assert(p.take(j) =~= d.take(j));
            lemma_digits_value_grows(p, p.len() as int);
            assert(p.take(p.len() as int) =~= p);
        }
    }
}

/// The value of the digits `v[from..]`, if they are all digits, at least one,
/// and the value fits in a `u64`.
fn parse_digits(v: &[char], from: usize) -> (r: Option<u64>)
    requires
        from <= v@.len(),
    ensures
        r is Some <==> all_digits(v@.skip(from as int)) && digits_value(v@.skip(from as int))
            <= u64::MAX,
        r matches Some(x) ==> x as int == digits_value(v@.skip(from as int)),
{
    let ghost d = v@.skip(from as int);
    let n = v.len();
    if from == n {
        return None;
    }
    let mut i: usize = from;
    while i < n
        invariant
            from <= i <= n,
            n == v@.len(),
            d == v@.skip(from as int),
            forall|k: int| 0 <= k < i - from ==> is_digit(#[trigger] d[k]),
        decreases n - i,
    {
        if !('0' <= v[i] && v[i] <= '9') {
            assert(d[i - from] == v@[i as int]);
            return None;
        }
        assert(d[i - from] == v@[i as int]);
        i = i + 1;
    }
    let mut acc: u64 = 0;
    let mut j: usize = from;
    assert(d.take(0) =~= Seq::<char>::empty());
    while j < n
        invariant
            from <= j <= n,
            n == v@.len(),
            d == v@.skip(from as int),
            d.len() == n - from,
            forall|k: int| 0 <= k < d.len() ==> is_digit(#[trigger] d[k]),
            acc == digits_value(d.take(j - from)),
        decreases n - j,
    {
        let c = v[j];
        assert(d[j - from] == c);
        let digit = (c as u32 - '0' as u32) as u64;
        assert(d.take(j - from + 1).drop_last() =~= d.take(j - from));
        assert(d.take(j - from + 1).last() == c);
        if acc > (18446744073709551615u64 - digit) / 10 {
            proof {
                assert(acc * 10 + digit > u64::MAX) by (nonlinear_arith)
                    requires
                        acc > (18446744073709551615u64 - digit) / 10,
                        digit <= 9,
                ;
                lemma_digits_value_grows(d, j - from + 1);
            }
            return None;
        }
        proof {
            assert(acc * 10 + digit <= u64::MAX) by (nonlinear_arith)
                requires
                    acc <= (18446744073709551615u64 - digit) / 10,
                    digit <= 9,
            ;
        }
        acc = acc * 10 + digit;
        j = j + 1;
    }
    assert(d.take(d.len() as int) =~= d);
    Some(acc)
}

/// The session lifetime in seconds from `CYTRACE_SESSION_TTL_HOURS`: whole
/// hours, read as `u64::from_str` reads them after trimming, times 3600
/// (saturating); 12 hours when the variable is unset; a configuration error
/// when it is not a whole number.
pub fn session_ttl_secs(env: &[(String, String)]) -> (r: Result<u64, CytraceError>)
    ensures
        match ttl_secs_of(env_value(env@, "CYTRACE_SESSION_TTL_HOURS"@)) {
            Ok(v) => r == Ok::<u64, CytraceError>(v as u64),
            Err(m) => r matches Err(CytraceError::Config(t)) && t@ == m,
        },
{
    let found = env_lookup(env, "CYTRACE_SESSION_TTL_HOURS");
    let ghost want = ttl_secs_of(env_value(env@, "CYTRACE_SESSION_TTL_HOURS"@));
    match found {
        None => {
            assert(want == Ok::<int, Seq<char>>(43200));
            Ok(DEFAULT_SESSION_TTL_HOURS * 3600)
        },
        Some(h) => {
            assert(env_value(env@, "CYTRACE_SESSION_TTL_HOURS"@) == Some(h@));
            let cs = chars_of(h.as_str());
            let t = trim_chars(&cs);
            let start: usize = if t.len() > 0 && t[0] == '+' { 1 } else { 0 };
            proof {
                if start == 0 {
                    assert(t@.skip(0) =~= t@);
                }
            }
            let ghost d = unsigned_digits(t@);
            assert(t@.skip(start as int) == d);
            assert(t@ == trim(h@));
            match parse_digits(&t, start) {
                Some(v) => {
                    assert(u64_text_value(trim(h@)) == Some(v as int));
                    if v > 18446744073709551615u64 / 3600 {
                        assert(v * 3600 > u64::MAX) by (nonlinear_arith)
                            requires
                                v > 18446744073709551615u64 / 3600,
                        ;
                        assert(want == Ok::<int, Seq<char>>(u64::MAX as int));
                        Ok(18446744073709551615u64)
                    } else {
                        assert(v * 3600 <= u64::MAX) by (nonlinear_arith)
                            requires
                                v <= 18446744073709551615u64 / 3600,
                        ;
                        assert(want == Ok::<int, Seq<char>>(v * 3600));
                        Ok(v * 3600)
                    }
                },
                None => {
                    assert(u64_text_value(trim(h@)) is None);
                    let mut m: Vec<char> = Vec::new();
                    push_str(&mut m, "CYTRACE_SESSION_TTL_HOURS 不是整數：");
                    push_str(&mut m, h.as_str());
                    let msg = string_from_chars(&m);
                    assert(want == Err::<int, Seq<char>>(msg@));
                    Err(CytraceError::Config(msg))
                },
            }
        },
    }
}

/// The TLS certificate and key files, when both `CYTRACE_TLS_CERT` and
/// `CYTRACE_TLS_KEY` are set; otherwise the service serves plain HTTP.
pub fn tls_files(env: &[(String, String)]) -> (r: Option<(String, String)>)
    ensures
        match (env_value(env@, "CYTRACE_TLS_CERT"@), env_value(env@, "CYTRACE_TLS_KEY"@)) {
            (Some(c), Some(k)) => r matches Some(p) && p.0@ == c && p.1@ == k,
            _ => r is None,
        },
{
    match (env_lookup(env, "CYTRACE_TLS_CERT"), env_lookup(env, "CYTRACE_TLS_KEY")) {
        (Some(c), Some(k)) => Some((c, k)),
        _ => None,
    }
}

} // verus!
