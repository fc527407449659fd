//! The session API of the web service: log in, who am I, log out, and the
//! session check that guards protected routes. The HTTP plumbing hands these
//! functions the request's pieces as plain values and sends back what they
//! return.
use vstd::prelude::*;
use crate::api_error::{ApiError, ErrorKind, Lang};
use crate::auth::{argon2_accepts, phc_parses, verify_password};
use crate::session::{
    cookie_attrs, cookie_token_from, create_after, created_session, hex_of, lemma_hex_chars,
    law_created_session_validates_until_expiry, law_login_cookie_token_reads_back, login_cookie,
    logout_cookie, max_clock, token_from_cookie_header, token_key, validate_after,
    validate_answer, Session, SessionStore,
};
use crate::text::{has_prefix, str_view};
use crate::throttle::{check_answer, live, LoginThrottle};
use crate::timefmt::{epoch_to_iso, iso_text};

verus! {

/// The `Set-Cookie` value that a login with `token` answers.
pub open spec fn login_cookie_text(token: Seq<char>, secure: bool) -> Seq<char> {
    "cytrace_session="@ + token + cookie_attrs(secure)
}

/// The body of a login request.
#[derive(Debug)]
pub struct LoginBody {
    password: String,
}

impl LoginBody {
    /// A login request for `password`.
    pub fn new(password: String) -> (r: LoginBody)
        ensures
            r.password_text() == password@,
    {
        LoginBody { password }
    }

    /// The password of the request, as text.
    pub closed spec fn password_text(&self) -> Seq<char> {
        self.password@
    }

    /// The password of the request.
    pub fn password(&self) -> (r: &str)
        ensures
            r@ == self.password_text(),
    {
        self.password.as_str()
    }
}

/// Whether `e` is an internal error in `lang` whose detail begins with `prefix`.
pub open spec fn internal_error(e: ApiError, lang: Lang, prefix: Seq<char>) -> bool {
    &&& e.lang == lang
    &&& e.kind == ErrorKind::Internal
    &&& e.retry_after is None
    &&& match e.detail {
        Some(d) => has_prefix(d@, prefix),
        None => false,
    }
}

/// Whether `token` is a session token: the lower-case hex of 32 bytes.
pub open spec fn is_token(token: Seq<char>) -> bool {
    exists|raw: Seq<u8>| raw.len() == 32 && token == #[trigger] hex_of(raw)
}

/// What a login attempt does, at clock reading `now` of the throttle, from the
/// throttle `t0` and the sessions `s0` to `t1` and `s1`, answering `r`:
/// - refused by the throttle: 429 with the throttle's `Retry-After`, nothing
///   recorded, no session;
/// - an administrator hash that is no PHC string: an internal error, with the
///   parser's message as detail;
/// - a wrong password: 401, and the failure is recorded for `ip` at `now`;
/// - the right password: a new session whose token the cookie carries, or an
///   internal error, with no session, when the random source fails.
/// Failures that have left the throttle's window are dropped in every case.
pub open spec fn login_outcome(
    t0: LoginThrottle,
    t1: LoginThrottle,
    s0: SessionStore,
    s1: SessionStore,
    admin_phc: Seq<char>,
    secure: bool,
    ip: Seq<u8>,
    lang: Lang,
    password: Seq<char>,
    now: int,
    r: Result<String, ApiError>,
) -> bool {
    let ans = check_answer(t0.failures(), ip, now, t0.window_nanos(), t0.per_ip(), t0.global());
    let kept = live(t0.failures(), now, t0.window_nanos());
    &&& t1.window_nanos() == t0.window_nanos()
    &&& t1.per_ip() == t0.per_ip()
    &&& t1.global() == t0.global()
    &&& s1.ttl_nanos() == s0.ttl_nanos()
    &&& if ans is Err {
        &&& r == Err::<String, ApiError>(
            ApiError {
                lang,
                kind: ErrorKind::RateLimited,
                detail: None,
                retry_after: Some(ans->Err_0),
            },
        )
        &&& t1.failures() == kept
        &&& s1.view() == s0.view()
    } else if !phc_parses(admin_phc) {
        &&& r matches Err(e) && internal_error(e, lang, "PHC 格式錯誤: "@)
        &&& t1.failures() == kept
        &&& s1.view() == s0.view()
    } else if !argon2_accepts(password, admin_phc) {
        &&& r == Err::<String, ApiError>(
            ApiError { lang, kind: ErrorKind::Auth, detail: None, retry_after: None },
        )
        &&& t1.failures() == kept.push((ip, now))
        &&& s1.view() == s0.view()
    } else {
        &&& t1.failures() == kept
        &&& match r {
            Ok(cookie) => exists|token: Seq<char>|
                cookie@ == login_cookie_text(token, secure) && #[trigger] created_session(
                    s0.view(),
                    s1.view(),
                    token_key(token),
                    s0.ttl_nanos(),
                ) && is_token(token),
            Err(e) => internal_error(e, lang, "getrandom: "@) && s1.view() == s0.view(),
        }
    }
}

/// `POST /api/v1/session` at clock reading `now` of the throttle: checks the
/// throttle, then the password against the administrator's PHC string, and on
/// success creates a session and answers its `Set-Cookie` value. A wrong
/// password always answers 401 (there is one account, so nothing to enumerate).
pub fn login_at(
    throttle: &mut LoginThrottle,
    sessions: &mut SessionStore,
    admin_phc: &str,
    secure: bool,
    ip: &[u8],
    lang: Lang,
    password: &str,
    now: u128,
) -> (r: Result<String, ApiError>)
    requires
        old(sessions).wf(),
        old(throttle).wf(),
    ensures
        final(sessions).wf(),
        final(throttle).wf(),
        login_outcome(
            *old(throttle),
            *final(throttle),
            *old(sessions),
            *final(sessions),
            admin_phc@,
            secure,
            ip@,
            lang,
            password@,
            now as int,
            r,
        ),
{
    if let Err(retry) = throttle.check_at(ip, now) {
        return Err(ApiError::new(lang, ErrorKind::RateLimited).with_retry_after(retry));
    }
    let ok = match verify_password(password, admin_phc) {
        Ok(b) => b,
        Err(e) => {
            return Err(ApiError::new(lang, ErrorKind::Internal).with_detail(e));
        },
    };
    if !ok {
        throttle.record_failure_at(ip, now);
        return Err(ApiError::new(lang, ErrorKind::Auth));
    }
    let token = match sessions.create() {
        Ok(t) => t,
        Err(e) => {
            return Err(ApiError::new(lang, ErrorKind::Internal).with_detail(e));
        },
    };
    let cookie = login_cookie(token.as_str(), secure);
    assert(is_token(token@));
    assert(created_session(
        old(sessions).view(),
        sessions.view(),
        token_key(token@),
        old(sessions).ttl_nanos(),
    ));
    Ok(cookie)
}

/// `POST /api/v1/session` now (see [`login_at`]).
pub fn login(
    throttle: &mut LoginThrottle,
    sessions: &mut SessionStore,
    admin_phc: &str,
    secure: bool,
    ip: &[u8],
    lang: Lang,
    password: &str,
) -> (r: Result<String, ApiError>)
    requires
        old(sessions).wf(),
        old(throttle).wf(),
    ensures
        final(sessions).wf(),
        final(throttle).wf(),
        exists|now: int|
            0 <= now && now >= old(throttle).latest_reading() && #[trigger] login_outcome(
                *old(throttle),
                *final(throttle),
                *old(sessions),
                *final(sessions),
                admin_phc@,
                secure,
                ip@,
                lang,
                password@,
                now,
                r,
            ),
{
    let now = throttle.clock();
    login_at(throttle, sessions, admin_phc, secure, ip, lang, password, now)
}

/// The 401 answer, in `lang`.
pub open spec fn unauthorized(lang: Lang) -> ApiError {
    ApiError { lang, kind: ErrorKind::Auth, detail: None, retry_after: None }
}

/// The session token of an optional `Cookie` header.
pub open spec fn header_token(cookie_header: Option<Seq<char>>) -> Option<Seq<char>> {
    match cookie_header {
        Some(h) => cookie_token_from(h, 0),
        None => None,
    }
}

fn token_of(cookie_header: Option<&str>) -> (r: Option<&str>)
    ensures
        str_view(r) == header_token(str_view(cookie_header)),
{
    match cookie_header {
        Some(h) => token_from_cookie_header(h),
        None => None,
    }
}

/// What checking the session of a request does at `now`: the session of its
/// cookie's token when there is one and it has not expired.
pub open spec fn session_answer(m: Map<Seq<u8>, Session>, cookie_header: Option<Seq<char>>, now: int) -> Option<Session> {
    match header_token(cookie_header) {
        Some(t) => validate_answer(m, token_key(t), now),
        None => None,
    }
}

/// The sessions after checking a request's session at `now`.
pub open spec fn session_after(m: Map<Seq<u8>, Session>, cookie_header: Option<Seq<char>>, now: int) -> Map<Seq<u8>, Session> {
    match header_token(cookie_header) {
        Some(t) => validate_after(m, token_key(t), now),
        None => m,
    }
}

fn session_of(sessions: &mut SessionStore, cookie_header: Option<&str>) -> (r: Option<Session>)
    requires
        old(sessions).wf(),
    ensures
        final(sessions).wf(),
        final(sessions).ttl_nanos() == old(sessions).ttl_nanos(),
        exists|now: int|
            0 <= now && r == #[trigger] session_answer(old(sessions).view(), str_view(cookie_header), now)
                && final(sessions).view() == session_after(
                old(sessions).view(),
                str_view(cookie_header),
                now,
            ),
{
    match token_of(cookie_header) {
        Some(t) => {
            let r = sessions.validate(t);
            proof {
                let now = choose|now: int|
                    0 <= now <= crate::session::max_clock() && r == #[trigger] validate_answer(
                        old(sessions).view(),
                        token_key(t@),
                        now,
                    ) && sessions.view() == validate_after(old(sessions).view(), token_key(t@), now);
                assert(r == session_answer(old(sessions).view(), str_view(cookie_header), now));
            }
            r
        },
        None => {
            assert(session_answer(old(sessions).view(), str_view(cookie_header), 0) is None);
            None
        },
    }
}

/// The auth guard of protected routes: a request passes when its cookie holds
/// a live session's token; otherwise it is answered 401.
pub fn require_session(sessions: &mut SessionStore, cookie_header: Option<&str>, lang: Lang) -> (r: Result<(), ApiError>)
    requires
        old(sessions).wf(),
    ensures
        final(sessions).wf(),
        final(sessions).ttl_nanos() == old(sessions).ttl_nanos(),
        exists|now: int|
            0 <= now && (r is Ok <==> #[trigger] session_answer(old(sessions).view(), str_view(cookie_header), now) is Some)
                && final(sessions).view() == session_after(
                old(sessions).view(),
                str_view(cookie_header),
                now,
            ),
        r matches Err(e) ==> e == unauthorized(lang),
{
    match session_of(sessions, cookie_header) {
        Some(_) => Ok(()),
        None => Err(ApiError::new(lang, ErrorKind::Auth)),
    }
}

/// The session information that `GET /api/v1/session` answers.
#[derive(Debug)]
pub struct SessionInfo {
    pub user: String,
    pub created_at: String,
    pub expires_at: String,
}

/// Whole seconds of a nanosecond clock reading, as a timestamp; readings past
/// `u64::MAX` seconds show as `u64::MAX` seconds.
pub open spec fn secs_of(nanos: int) -> nat {
    let s = nanos / 1000000000;
    if s > u64::MAX {
        u64::MAX as nat
    } else {
        s as nat
    }
}

/// The ISO-8601 text of a nanosecond clock reading.
pub fn iso_of(nanos: u128) -> (r: String)
    ensures
        r@ == iso_text(secs_of(nanos as int)),
{
    let s = nanos / 1000000000;
    let secs: u64 = if s > 18446744073709551615u128 {
        18446744073709551615u64
    } else {
        s as u64
    };
    epoch_to_iso(secs)
}

/// `GET /api/v1/session`: the user and the times of the request's session, or
/// 401 when the request has none that is live.
pub fn whoami(sessions: &mut SessionStore, cookie_header: Option<&str>, lang: Lang, admin_user: &str) -> (r: Result<SessionInfo, ApiError>)
    requires
        old(sessions).wf(),
    ensures
        final(sessions).wf(),
        final(sessions).ttl_nanos() == old(sessions).ttl_nanos(),
        exists|now: int|
            0 <= now && final(sessions).view() == session_after(
                old(sessions).view(),
                str_view(cookie_header),
                now,
            ) && match #[trigger] session_answer(old(sessions).view(), str_view(cookie_header), now) {
                Some(s) => r matches Ok(info) && info.user@ == admin_user@ && info.created_at@
                    == iso_text(secs_of(s.created_at as int)) && info.expires_at@ == iso_text(
                    secs_of(s.expires_at as int),
                ),
                None => r == Err::<SessionInfo, ApiError>(unauthorized(lang)),
            },
{
    match session_of(sessions, cookie_header) {
        Some(s) => Ok(
            SessionInfo {
                user: admin_user.to_string(),
                created_at: iso_of(s.created_at),
                expires_at: iso_of(s.expires_at),
            },
        ),
        None => Err(ApiError::new(lang, ErrorKind::Auth)),
    }
}

/// `DELETE /api/v1/session`: removes the session of the request's cookie, if
/// any, and answers the `Set-Cookie` value that clears the cookie. Logging out
/// twice is the same as once.
pub fn logout(sessions: &mut SessionStore, cookie_header: Option<&str>, secure: bool) -> (r: String)
    requires
        old(sessions).wf(),
    ensures
        final(sessions).wf(),
        final(sessions).ttl_nanos() == old(sessions).ttl_nanos(),
        final(sessions).view() == after_logout(old(sessions).view(), str_view(cookie_header)),
        r@ == "cytrace_session=; HttpOnly; SameSite=Strict; Path=/; Max-Age=0"@ + if secure {
            "; Secure"@
        } else {
            seq![]
        },
{
    if let Some(t) = token_of(cookie_header) {
        sessions.revoke(t);
    }
    logout_cookie(secure)
}

/// The sessions after a logout with an optional `Cookie` header.
pub open spec fn after_logout(m: Map<Seq<u8>, Session>, cookie_header: Option<Seq<char>>) -> Map<Seq<u8>, Session> {
    match header_token(cookie_header) {
        Some(t) => m.remove(token_key(t)),
        None => m,
    }
}

/// Logging out is idempotent: logging out twice with the same cookie leaves
/// the sessions as logging out once does.
pub proof fn law_logout_is_idempotent(m: Map<Seq<u8>, Session>, cookie_header: Option<Seq<char>>)
    ensures
        after_logout(after_logout(m, cookie_header), cookie_header) == after_logout(m, cookie_header),
{
    if let Some(t) = header_token(cookie_header) {
        assert(m.remove(token_key(t)).remove(token_key(t)) =~= m.remove(token_key(t)));
    }
}

/// After a logout, the session of its cookie no longer passes the guard, at
/// any time.
pub proof fn law_logged_out_session_is_refused(
    m: Map<Seq<u8>, Session>,
    cookie_header: Option<Seq<char>>,
    now: int,
)
    ensures
        session_answer(after_logout(m, cookie_header), cookie_header, now) is None,
{
}

/// Whether a request that carries `cookie` passes the session guard from
/// `created` until `created + ttl`, as the session of those times, and is
/// refused from then on.
pub open spec fn guard_passes_while_live(
    m: Map<Seq<u8>, Session>,
    cookie: Seq<char>,
    created: int,
    ttl: int,
) -> bool {
    &&& 0 <= created <= max_clock()
    &&& forall|later: int|
        created <= later ==> #[trigger] session_answer(m, Some(cookie), later) == if later
            < created + ttl {
            Some(Session { created_at: created as u128, expires_at: (created + ttl) as u128 })
        } else {
            None::<Session>
        }
}

/// A successful login opens a session for its cookie: sent back, the cookie
/// passes the session guard from the moment the session was created until it
/// expires, as that very session, and never afterwards.
pub proof fn law_login_cookie_opens_its_session(
    before: Map<Seq<u8>, Session>,
    after: Map<Seq<u8>, Session>,
    token: Seq<char>,
    ttl: int,
    secure: bool,
)
    requires
        is_token(token),
        created_session(before, after, token_key(token), ttl),
        0 <= ttl <= 18446744073709551615int * 1000000000,
    ensures
        exists|created: int|
            #[trigger] guard_passes_while_live(after, login_cookie_text(token, secure), created, ttl),
{
    let raw = choose|raw: Seq<u8>| raw.len() == 32 && token == #[trigger] hex_of(raw);
    lemma_hex_chars(raw);
    assert forall|i: int| 0 <= i < token.len() implies token[i] != ';' by {
        assert('0' <= token[i] <= '9' || 'a' <= token[i] <= 'f');
    }
    if token.len() > 0 {
        assert('0' <= token[token.len() - 1] <= '9' || 'a' <= token[token.len() - 1] <= 'f');
    }
    law_login_cookie_token_reads_back(token, secure);
    let k = token_key(token);
    let created = choose|now: int|
        0 <= now <= max_clock() && after == #[trigger] create_after(before, k, now, ttl);
    assert forall|later: int| created <= later implies #[trigger] session_answer(
        after,
        Some(login_cookie_text(token, secure)),
        later,
    ) == if later < created + ttl {
        Some(Session { created_at: created as u128, expires_at: (created + ttl) as u128 })
    } else {
        None::<Session>
    } by {
        law_created_session_validates_until_expiry(before, k, created, ttl, later);
    }
    assert(guard_passes_while_live(after, login_cookie_text(token, secure), created, ttl));
}

} // verus!
