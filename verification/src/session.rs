//! The in-memory session store and the session cookie.
//!
//! A token is 32 random bytes in lower-case hex; the store keeps only the
//! SHA-256 of a token, so a memory dump yields no token that can be replayed.
//! Sessions expire absolutely (no sliding) after the store's time to live.
//! Times are nanoseconds since the Unix epoch.
use vstd::prelude::*;

use vstd::utf8::encode_utf8;

use vstd::string::StrSliceExecFns;

use crate::text::{
    chars_of, eq_chars, field_end, has_prefix, find_char, find_field_end, index_of, push_str, slice_chars,
    string_from_chars, trim, trim_range,
};

verus! {

/// The name of the session cookie.
pub const COOKIE_NAME: &'static str = "cytrace_session";

/// The largest clock reading: `u64::MAX` whole seconds and 999,999,999 nanoseconds.
pub open spec fn max_clock() -> int {
    18446744073709551615int * 1000000000 + 999999999
}

/// SHA-256 of `data` (the `sha2` crate).
pub uninterp spec fn sha256_digest(data: Seq<u8>) -> Seq<u8>;

/// The SHA-256 digest of `data`, computed by the `sha2` crate.
///
/// Trusted: the result is `Sha256::digest(data)`, named `sha256_digest`; the
/// digest function itself is not stated.
#[verifier::external_body]
fn sha256(data: &[u8]) -> (r: [u8; 32])
    ensures
        r@ == sha256_digest(data@),
{
    <sha2::Sha256 as sha2::Digest>::digest(data).into()
}

/// The error type of the `getrandom` crate.
#[verifier::external_type_specification]
#[verifier::external_body]
pub struct ExRandomError(getrandom::Error);

/// Fills a fresh buffer of `n` bytes from the operating system's random source
/// (`getrandom::getrandom`).
///
/// Trusted: on success the buffer has `n` bytes; what they are is left open.
#[verifier::external_body]
pub(crate) fn random_bytes(n: usize) -> (r: Result<Vec<u8>, getrandom::Error>)
    ensures
        r matches Ok(v) ==> v@.len() == n,
{
    let mut v = vec![0u8; n];
    getrandom::getrandom(&mut v)?;
    Ok(v)
}

/// The message of a random-source error (its `Display` text).
///
/// Trusted: nothing is stated of the text.
#[verifier::external_body]
pub(crate) fn random_error_text(e: &getrandom::Error) -> String {
    e.to_string()
}

/// The current time in nanoseconds since the Unix epoch (0 before 1970),
/// from `SystemTime::now`.
///
/// Trusted: the reading is at most `max_clock()`, the range of a `Duration`.
#[verifier::external_body]
pub(crate) fn now_nanos() -> (r: u128)
    ensures
        r <= max_clock(),
{
    match std::time::SystemTime::now().duration_since(std::time::UNIX_EPOCH) {
        Ok(d) => d.as_nanos(),
        Err(_) => 0,
    }
}

/// The store key of a token: SHA-256 of its UTF-8 bytes.
pub open spec fn token_key(token: Seq<char>) -> Seq<u8> {
    sha256_digest(encode_utf8(token))
}

/// The SHA-256 of the token's text.
pub fn hash_token(token_hex: &str) -> (r: [u8; 32])
    ensures
        r@ == token_key(token_hex@),
{
    sha256(token_hex.as_bytes())
}

/// A lower-case hex digit.
pub open spec fn hex_digit(d: int) -> char {
    if d < 10 {
        (('0' as u32) + d) as char
    } else {
        (('a' as u32) + d - 10) as char
    }
}

/// The lower-case hex text of `bytes`, two digits per byte.
pub open spec fn hex_of(bytes: Seq<u8>) -> Seq<char>
    decreases bytes.len(),
{
    if bytes.len() == 0 {
        seq![]
    } else {
        hex_of(bytes.drop_last()) + seq![
            hex_digit((bytes.last() / 16) as int),
            hex_digit((bytes.last() % 16) as int),
        ]
    }
}

proof fn lemma_hex_len(bytes: Seq<u8>)
    ensures
        hex_of(bytes).len() == 2 * bytes.len(),
    decreases bytes.len(),
{
    if bytes.len() > 0 {
        lemma_hex_len(bytes.drop_last());
    }
}

/// Every character of a hex text is a digit or a lower-case letter up to `f`.
pub proof fn lemma_hex_chars(bytes: Seq<u8>)
    ensures
        forall|i: int|
            0 <= i < hex_of(bytes).len() ==> ('0' <= #[trigger] hex_of(bytes)[i] <= '9' || 'a'
                <= hex_of(bytes)[i] <= 'f'),
    decreases bytes.len(),
{
    if bytes.len() > 0 {
        let p = bytes.drop_last();
        lemma_hex_chars(p);
        lemma_hex_len(p);
        let h = hex_of(bytes);
        let hp = hex_of(p);
        assert forall|i: int| 0 <= i < h.len() implies ('0' <= #[trigger] h[i] <= '9' || 'a' <= h[i]
            <= 'f') by {
            if i < hp.len() {
                assert(h[i] == hp[i]);
            }
        }
    }
}

fn hex_char(d: u8) -> (c: char)
    requires
        d < 16,
    ensures
        c == hex_digit(d as int),
{
    if d < 10 {
        (d + 48) as char
    } else {
        (d + 87) as char
    }
}

/// The lower-case hex text of `bytes`.
pub fn to_hex(bytes: &[u8]) -> (r: String)
    ensures
        r@ == hex_of(bytes@),
        r@.len() == 2 * bytes@.len(),
{
    let mut out: Vec<char> = Vec::new();
    let n = bytes.len();
    let mut i: usize = 0;
    while i < n
        invariant
            n == bytes@.len(),
            i <= n,
            out@ == hex_of(bytes@.take(i as int)),
        decreases n - i,
    {
        let b = bytes[i];
        out.push(hex_char(b / 16));
        out.push(hex_char(b % 16));
        i = i + 1;
        assert(bytes@.take(i as int).drop_last() =~= bytes@.take((i - 1) as int));
    }
    assert(bytes@.take(n as int) =~= bytes@);
    proof {
        lemma_hex_len(bytes@);
    }
    string_from_chars(&out)
}

/// A session: when it was created and when it expires.
#[derive(Debug, Clone, Copy, PartialEq, Eq, Structural)]
pub struct Session {
    pub created_at: u128,
    pub expires_at: u128,
}

/// The sessions of the web service, keyed by the SHA-256 of their token.
pub struct SessionStore {
    ttl: u128,
    entries: Vec<([u8; 32], Session)>,
}

/// Whether some entry has key `k`.
pub open spec fn has_key(e: Seq<([u8; 32], Session)>, k: Seq<u8>) -> bool {
    exists|i: int| 0 <= i < e.len() && (#[trigger] e[i]).0@ == k
}

/// The session of the entry with key `k`.
pub open spec fn session_at(e: Seq<([u8; 32], Session)>, k: Seq<u8>) -> Session {
    e[choose|i: int| 0 <= i < e.len() && (#[trigger] e[i]).0@ == k].1
}

/// The map that `e` holds.
pub open spec fn map_of(e: Seq<([u8; 32], Session)>) -> Map<Seq<u8>, Session> {
    Map::new(|k: Seq<u8>| has_key(e, k), |k: Seq<u8>| session_at(e, k))
}

/// Whether the keys of `e` are distinct.
pub open spec fn distinct_keys(e: Seq<([u8; 32], Session)>) -> bool {
    forall|i: int, j: int| 0 <= i < e.len() && 0 <= j < e.len() && i != j ==> (#[trigger] e[i]).0@ != (#[trigger] e[j]).0@
}

/// The sessions of `m` that have not expired at `now`.
pub open spec fn unexpired(m: Map<Seq<u8>, Session>, now: int) -> Map<Seq<u8>, Session> {
    Map::new(|k: Seq<u8>| m.dom().contains(k) && m[k].expires_at > now, |k: Seq<u8>| m[k])
}

/// What validating key `k` at `now` answers: the session while it has not expired.
pub open spec fn validate_answer(m: Map<Seq<u8>, Session>, k: Seq<u8>, now: int) -> Option<Session> {
    if m.dom().contains(k) && m[k].expires_at > now {
        Some(m[k])
    } else {
        None
    }
}

/// The store after validating key `k` at `now`: an expired session is removed.
pub open spec fn validate_after(m: Map<Seq<u8>, Session>, k: Seq<u8>, now: int) -> Map<Seq<u8>, Session> {
    if m.dom().contains(k) && m[k].expires_at <= now {
        m.remove(k)
    } else {
        m
    }
}

/// The store after creating the session of key `k` at `now`: expired sessions
/// are dropped and the new one is added.
pub open spec fn create_after(m: Map<Seq<u8>, Session>, k: Seq<u8>, now: int, ttl: int) -> Map<Seq<u8>, Session> {
    unexpired(m, now).insert(k, Session { created_at: now as u128, expires_at: (now + ttl) as u128 })
}

/// Whether `after` is `before` with a session of key `k` created at some clock reading.
pub open spec fn created_session(before: Map<Seq<u8>, Session>, after: Map<Seq<u8>, Session>, k: Seq<u8>, ttl: int) -> bool {
    exists|now: int| 0 <= now <= max_clock() && after == #[trigger] create_after(before, k, now, ttl)
}

proof fn lemma_lookup(e: Seq<([u8; 32], Session)>, i: int)
    requires
        distinct_keys(e),
        0 <= i < e.len(),
    ensures
        map_of(e).dom().contains(e[i].0@),
        map_of(e)[e[i].0@] == e[i].1,
{
    let k = e[i].0@;
    assert(has_key(e, k));
    let j = choose|j: int| 0 <= j < e.len() && (#[trigger] e[j]).0@ == k;
    assert(j == i);
}

fn same_key(a: &[u8; 32], b: &[u8; 32]) -> (r: bool)
    ensures
        r == (a@ == b@),
{
    let mut i: usize = 0;
    while i < 32
        invariant
            i <= 32,
            a@.len() == 32,
            b@.len() == 32,
            forall|j: int| 0 <= j < i ==> a@[j] == b@[j],
        decreases 32 - i,
    {
        if a[i] != b[i] {
            return false;
        }
        i = i + 1;
    }
    assert(a@ =~= b@);
    true
}

impl SessionStore {
    /// The sessions held, by key.
    pub closed spec fn view(&self) -> Map<Seq<u8>, Session> {
        map_of(self.entries@)
    }

    /// The time to live of new sessions, in nanoseconds.
    pub closed spec fn ttl_nanos(&self) -> int {
        self.ttl as int
    }

    /// The store's invariant: distinct keys and a time to live within range.
    pub closed spec fn wf(&self) -> bool {
        &&& distinct_keys(self.entries@)
        &&& self.ttl <= 18446744073709551615u128 * 1000000000
    }

    /// An empty store whose sessions live `ttl_secs` seconds.
    pub fn new(ttl_secs: u64) -> (r: SessionStore)
        ensures
            r.wf(),
            r.view() == Map::<Seq<u8>, Session>::empty(),
            r.ttl_nanos() == ttl_secs * 1000000000,
    {
        let r = SessionStore { ttl: (ttl_secs as u128) * 1000000000, entries: Vec::new() };
        assert(r.view() =~= Map::<Seq<u8>, Session>::empty());
        r
    }

    /// The index of the entry with key `k`, if any.
    fn find(&self, k: &[u8; 32]) -> (r: Option<usize>)
        requires
            self.wf(),
        ensures
            r matches Some(i) ==> i < self.entries@.len() && self.entries@[i as int].0@ == k@,
            r is None <==> !self.view().dom().contains(k@),
    {
        let n = self.entries.len();
        let mut i: usize = 0;
        while i < n
            invariant
                n == self.entries@.len(),
                i <= n,
                forall|j: int| 0 <= j < i ==> (#[trigger] self.entries@[j]).0@ != k@,
            decreases n - i,
        {
            if same_key(&self.entries[i].0, k) {
                return Some(i);
            }
            i = i + 1;
        }
        None
    }

    /// Drops the sessions that have expired at `now`.
    fn retain_unexpired(&mut self, now: u128)
        requires
            old(self).wf(),
        ensures
            final(self).wf(),
            final(self).view() == unexpired(old(self).view(), now as int),
            final(self).ttl == old(self).ttl,
    {
        let ghost m = self.view();
        let ghost old_entries = self.entries@;
        let mut kept: Vec<([u8; 32], Session)> = Vec::new();
        let ghost mut idx: Seq<int> = seq![];
        let n = self.entries.len();
        let mut i: usize = 0;
        while i < n
            invariant
                n == old_entries.len(),
                self.entries@ == old_entries,
                i <= n,
                kept@.len() == idx.len(),
                forall|j: int| 0 <= j < idx.len() ==> 0 <= #[trigger] idx[j] < i && kept@[j] == old_entries[idx[j]]
                    && old_entries[idx[j]].1.expires_at > now,
                forall|j: int, j2: int| 0 <= j < j2 < idx.len() ==> #[trigger] idx[j] < #[trigger] idx[j2],
                forall|l: int| 0 <= l < i && (#[trigger] old_entries[l]).1.expires_at > now ==> exists|j: int| 0 <= j < idx.len() && idx[j] == l,
            decreases n - i,
        {
            let e = self.entries[i];
            if e.1.expires_at > now {
                kept.push(e);
                proof {
                    let idx0 = idx;
                    idx = idx.push(i as int);
                    assert forall|l: int| 0 <= l < i + 1 && (#[trigger] old_entries[l]).1.expires_at > now implies exists|j: int| 0 <= j < idx.len() && idx[j] == l by {
                        if l == i {
                            assert(idx[idx.len() - 1] == l);
                        } else {
                            let j = choose|j: int| 0 <= j < idx0.len() && idx0[j] == l;
                            assert(idx[j] == idx0[j]);
                        }
                    }
                }
            }
            i = i + 1;
        }
        self.entries = kept;
        proof {
            let u = unexpired(m, now as int);
            assert forall|a: int, b: int| 0 <= a < kept@.len() && 0 <= b < kept@.len() && a != b implies (#[trigger] kept@[a]).0@ != (#[trigger] kept@[b]).0@ by {
                if a < b {
                    assert(idx[a] < idx[b]);
                } else {
                    assert(idx[b] < idx[a]);
                }
                assert(old_entries[idx[a]].0@ != old_entries[idx[b]].0@);
            }
            assert forall|k: Seq<u8>| #[trigger] map_of(kept@).dom().contains(k) == u.dom().contains(k) by {
                if has_key(kept@, k) {
                    let j = choose|j: int| 0 <= j < kept@.len() && (#[trigger] kept@[j]).0@ == k;
                    lemma_lookup(old_entries, idx[j]);
                }
                if u.dom().contains(k) {
                    let l = choose|l: int| 0 <= l < old_entries.len() && (#[trigger] old_entries[l]).0@ == k;
                    lemma_lookup(old_entries, l);
                    let j = choose|j: int| 0 <= j < idx.len() && idx[j] == l;
                    assert(kept@[j].0@ == k);
                }
            }
            assert forall|k: Seq<u8>| #[trigger] map_of(kept@).dom().contains(k) implies map_of(kept@)[k] == u[k] by {
                let j = choose|j: int| 0 <= j < kept@.len() && (#[trigger] kept@[j]).0@ == k;
                lemma_lookup(kept@, j);
                lemma_lookup(old_entries, idx[j]);
            }
            assert(map_of(kept@) =~= u);
        }
    }

    /// Adds (or replaces) the session of key `k`.
    fn put(&mut self, k: [u8; 32], s: Session)
        requires
            old(self).wf(),
        ensures
            final(self).wf(),
            final(self).view() == old(self).view().insert(k@, s),
            final(self).ttl == old(self).ttl,
    {
        let ghost m = self.view();
        match self.find(&k) {
            Some(i) => {
                let ghost before = self.entries@;
                self.entries.set(i, (k, s));
                proof {
                    assert forall|a: int, b: int| 0 <= a < self.entries@.len() && 0 <= b < self.entries@.len() && a != b implies (#[trigger] self.entries@[a]).0@ != (#[trigger] self.entries@[b]).0@ by {
                        assert(before[a].0@ == self.entries@[a].0@);
                        assert(before[b].0@ == self.entries@[b].0@);
                    }
                    assert forall|key: Seq<u8>| #[trigger] self.view().dom().contains(key) == m.insert(k@, s).dom().contains(key) by {
                        if has_key(before, key) {
                            let j = choose|j: int| 0 <= j < before.len() && (#[trigger] before[j]).0@ == key;
                            assert(self.entries@[j].0@ == key);
                        }
                        if has_key(self.entries@, key) {
                            let j = choose|j: int| 0 <= j < self.entries@.len() && (#[trigger] self.entries@[j]).0@ == key;
                            assert(before[j].0@ == key);
                        }
                        assert(self.entries@[i as int].0@ == k@);
                    }
                    assert forall|key: Seq<u8>| #[trigger] self.view().dom().contains(key) implies self.view()[key] == m.insert(k@, s)[key] by {
                        let j = choose|j: int| 0 <= j < self.entries@.len() && (#[trigger] self.entries@[j]).0@ == key;
                        lemma_lookup(self.entries@, j);
                        if j != i {
                            lemma_lookup(before, j);
                        }
                    }
                    assert(self.view() =~= m.insert(k@, s));
                }
            },
            None => {
                let ghost before = self.entries@;
                self.entries.push((k, s));
                proof {
                    let e = self.entries@;
                    assert forall|a: int, b: int| 0 <= a < e.len() && 0 <= b < e.len() && a != b implies (#[trigger] e[a]).0@ != (#[trigger] e[b]).0@ by {
                        if a < before.len() && b < before.len() {
                            assert(before[a] == e[a] && before[b] == e[b]);
                        } else if a < before.len() {
                            assert(e[a] == before[a]);
                            lemma_lookup(before, a);
                        } else if b < before.len() {
                            assert(e[b] == before[b]);
                            lemma_lookup(before, b);
                        }
                    }
                    assert forall|key: Seq<u8>| #[trigger] map_of(e).dom().contains(key) == m.insert(k@, s).dom().contains(key) by {
                        if has_key(before, key) {
                            let j = choose|j: int| 0 <= j < before.len() && (#[trigger] before[j]).0@ == key;
                            assert(e[j] == before[j]);
                        }
                        if has_key(e, key) {
                            let j = choose|j: int| 0 <= j < e.len() && (#[trigger] e[j]).0@ == key;
                            if j < before.len() {
                                assert(e[j] == before[j]);
                            }
                        }
                        assert(e[before.len() as int].0@ == k@);
                    }
                    assert forall|key: Seq<u8>| #[trigger] map_of(e).dom().contains(key) implies map_of(e)[key] == m.insert(k@, s)[key] by {
                        let j = choose|j: int| 0 <= j < e.len() && (#[trigger] e[j]).0@ == key;
                        lemma_lookup(e, j);
                        if j < before.len() {
                            assert(e[j] == before[j]);
                            lemma_lookup(before, j);
                        }
                    }
                    assert(map_of(e) =~= m.insert(k@, s));
                }
            },
        }
    }

    /// Removes the session of key `k`, if any.
    fn take_out(&mut self, k: &[u8; 32])
        requires
            old(self).wf(),
        ensures
            final(self).wf(),
            final(self).view() == old(self).view().remove(k@),
            final(self).ttl == old(self).ttl,
    {
        let ghost m = self.view();
        match self.find(k) {
            Some(i) => {
                let ghost before = self.entries@;
                self.entries.remove(i);
                proof {
                    let e = self.entries@;
                    assert forall|j: int| 0 <= j < e.len() implies #[trigger] e[j] == before[if j < i {
                        j
                    } else {
                        j + 1
                    }] by {}
                    assert forall|a: int, b: int| 0 <= a < e.len() && 0 <= b < e.len() && a != b implies (#[trigger] e[a]).0@ != (#[trigger] e[b]).0@ by {
                        let a2 = if a < i { a } else { a + 1 };
                        let b2 = if b < i { b } else { b + 1 };
                        assert(e[a] == before[a2] && e[b] == before[b2]);
                    }
                    assert forall|key: Seq<u8>| #[trigger] map_of(e).dom().contains(key) == m.remove(k@).dom().contains(key) by {
                        if has_key(e, key) {
                            let j = choose|j: int| 0 <= j < e.len() && (#[trigger] e[j]).0@ == key;
                            let j2 = if j < i { j } else { j + 1 };
                            assert(e[j] == before[j2]);
                            assert(j2 != i);
                        }
                        if has_key(before, key) && key != k@ {
                            let j = choose|j: int| 0 <= j < before.len() && (#[trigger] before[j]).0@ == key;
                            assert(j != i);
                            let j1 = if j < i { j } else { j - 1 };
                            assert(e[j1] == before[j]);
                        }
                    }
                    assert forall|key: Seq<u8>| #[trigger] map_of(e).dom().contains(key) implies map_of(e)[key] == m.remove(k@)[key] by {
                        let j = choose|j: int| 0 <= j < e.len() && (#[trigger] e[j]).0@ == key;
                        lemma_lookup(e, j);
                        let j2 = if j < i { j } else { j + 1 };
                        assert(e[j] == before[j2]);
                        lemma_lookup(before, j2);
                    }
                    assert(map_of(e) =~= m.remove(k@));
                }
            },
            None => {
                assert(m.remove(k@) =~= m);
            },
        }
    }

    /// The session of key `k`, if any.
    fn get(&self, k: &[u8; 32]) -> (r: Option<Session>)
        requires
            self.wf(),
        ensures
            r is Some <==> self.view().dom().contains(k@),
            r matches Some(s) ==> s == self.view()[k@],
    {
        match self.find(k) {
            Some(i) => {
                proof {
                    lemma_lookup(self.entries@, i as int);
                }
                Some(self.entries[i].1)
            },
            None => None,
        }
    }

    /// Creates the session of the token made from `raw` at time `now`, after
    /// dropping the sessions that have expired; returns the token, the lower-case
    /// hex of `raw`.
    pub fn create_at(&mut self, raw: &[u8], now: u128) -> (r: String)
        requires
            old(self).wf(),
            now <= max_clock(),
        ensures
            final(self).wf(),
            r@ == hex_of(raw@),
            final(self).ttl_nanos() == old(self).ttl_nanos(),
            final(self).view() == create_after(old(self).view(), token_key(r@), now as int, old(self).ttl_nanos()),
    {
        let token = to_hex(raw);
        self.retain_unexpired(now);
        let session = Session { created_at: now, expires_at: now + self.ttl };
        let key = hash_token(token.as_str());
        self.put(key, session);
        token
    }

    /// Creates a session: 32 random bytes in lower-case hex become its token,
    /// which is returned; expired sessions are dropped on the way. Fails, with
    /// the store unchanged, when the random source fails.
    pub fn create(&mut self) -> (r: Result<String, String>)
        requires
            old(self).wf(),
        ensures
            final(self).wf(),
            final(self).ttl_nanos() == old(self).ttl_nanos(),
            r is Err ==> final(self).view() == old(self).view(),
            r matches Err(m) ==> has_prefix(m@, "getrandom: "@),
            r matches Ok(t) ==> t@.len() == 64,
            r matches Ok(t) ==> exists|raw: Seq<u8>| raw.len() == 32 && t@ == #[trigger] hex_of(raw),
            r matches Ok(t) ==> created_session(old(self).view(), final(self).view(), token_key(t@), old(self).ttl_nanos()),
    {
        let raw = match random_bytes(32) {
            Ok(v) => v,
            Err(e) => {
                let mut out: Vec<char> = Vec::new();
                push_str(&mut out, "getrandom: ");
                let text = random_error_text(&e);
                push_str(&mut out, text.as_str());
                proof {
                    reveal_strlit("getrandom: ");
                    assert(out@.take("getrandom: "@.len() as int) =~= "getrandom: "@);
                }
                return Err(string_from_chars(&out));
            },
        };
        let now = now_nanos();
        let token = self.create_at(&raw, now);
        proof {
            lemma_hex_len(raw@);
            let n = now as int;
            assert(0 <= n <= max_clock());
            assert(self.view() == create_after(old(self).view(), token_key(token@), n, old(self).ttl_nanos()));
            assert(created_session(old(self).view(), self.view(), token_key(token@), old(self).ttl_nanos()));
        }
        Ok(token)
    }

    /// Validates `token_hex` at time `now`: the session when it exists and has not
    /// expired; an expired session is removed.
    pub fn validate_at(&mut self, token_hex: &str, now: u128) -> (r: Option<Session>)
        requires
            old(self).wf(),
        ensures
            final(self).wf(),
            final(self).ttl_nanos() == old(self).ttl_nanos(),
            r == validate_answer(old(self).view(), token_key(token_hex@), now as int),
            final(self).view() == validate_after(old(self).view(), token_key(token_hex@), now as int),
    {
        let key = hash_token(token_hex);
        match self.get(&key) {
            Some(s) => {
                if s.expires_at > now {
                    Some(s)
                } else {
                    self.take_out(&key);
                    None
                }
            },
            None => None,
        }
    }

    /// Validates `token_hex` now: the session when it exists and has not expired;
    /// an expired session is removed.
    pub fn validate(&mut self, token_hex: &str) -> (r: Option<Session>)
        requires
            old(self).wf(),
        ensures
            final(self).wf(),
            final(self).ttl_nanos() == old(self).ttl_nanos(),
            exists|now: int| 0 <= now <= max_clock() && r == #[trigger] validate_answer(old(self).view(), token_key(token_hex@), now)
                && final(self).view() == validate_after(old(self).view(), token_key(token_hex@), now),
    {
        let now = now_nanos();
        let r = self.validate_at(token_hex, now);
        assert(r == validate_answer(old(self).view(), token_key(token_hex@), now as int));
        r
    }

    /// Logs out: removes the session of `token_hex` (absent is fine).
    pub fn revoke(&mut self, token_hex: &str)
        requires
            old(self).wf(),
        ensures
            final(self).wf(),
            final(self).ttl_nanos() == old(self).ttl_nanos(),
            final(self).view() == old(self).view().remove(token_key(token_hex@)),
    {
        let key = hash_token(token_hex);
        self.take_out(&key);
    }
}

/// The attributes of the session cookie.
pub open spec fn cookie_attrs(secure: bool) -> Seq<char> {
    "; HttpOnly; SameSite=Strict; Path=/"@ + if secure {
        "; Secure"@
    } else {
        seq![]
    }
}

/// The `Set-Cookie` value of a login: the token, `HttpOnly` and
/// `SameSite=Strict`, and `Secure` under TLS.
pub fn login_cookie(token: &str, secure: bool) -> (r: String)
    ensures
        r@ == "cytrace_session="@ + token@ + cookie_attrs(secure),
{
    let mut out: Vec<char> = Vec::new();
    push_str(&mut out, "cytrace_session=");
    push_str(&mut out, token);
    push_str(&mut out, "; HttpOnly; SameSite=Strict; Path=/");
    if secure {
        push_str(&mut out, "; Secure");
    }
    string_from_chars(&out)
}

/// The `Set-Cookie` value of a logout: an empty session cookie that expires at once.
pub fn logout_cookie(secure: bool) -> (r: String)
    ensures
        r@ == "cytrace_session=; HttpOnly; SameSite=Strict; Path=/; Max-Age=0"@ + if secure {
            "; Secure"@
        } else {
            seq![]
        },
{
    let mut out: Vec<char> = Vec::new();
    push_str(&mut out, "cytrace_session=; HttpOnly; SameSite=Strict; Path=/; Max-Age=0");
    if secure {
        push_str(&mut out, "; Secure");
    }
    string_from_chars(&out)
}

/// The value of a `name=value` pair when the name is the session cookie's.
pub open spec fn session_pair_value(pair: Seq<char>) -> Option<Seq<char>> {
    match index_of(pair, '=') {
        Some(q) => if pair.take(q) == "cytrace_session"@ {
            Some(pair.skip(q + 1))
        } else {
            None
        },
        None => None,
    }
}

/// The session token among the `;`-separated pairs of a `Cookie` header that
/// start at or after `from`: the first pair, trimmed, named `cytrace_session`.
pub open spec fn cookie_token_from(h: Seq<char>, from: int) -> Option<Seq<char>>
    decreases h.len() - from,
{
    if from < 0 || from > h.len() {
        None
    } else {
        let e = field_end(h, ';', from);
        match session_pair_value(trim(h.subrange(from, e))) {
            Some(v) => Some(v),
            None => if from <= e && e < h.len() {
                cookie_token_from(h, e + 1)
            } else {
                None
            },
        }
    }
}

/// Where the value of the pair `v[a..b]` starts when the pair is named `name`
/// (the session cookie's name).
fn session_value_start(v: &[char], name: &[char], a: usize, b: usize) -> (r: Option<usize>)
    requires
        a <= b <= v@.len(),
        name@ == "cytrace_session"@,
    ensures
        r matches Some(q) ==> a < q <= b && session_pair_value(v@.subrange(a as int, b as int)) == Some(v@.subrange(q as int, b as int)),
        r is None ==> session_pair_value(v@.subrange(a as int, b as int)) is None,
{
    let ghost pair = v@.subrange(a as int, b as int);
    if let Some(q) = find_char(v, '=', a, b) {
        let key = slice_chars(v, a, q);
        assert(key@ =~= pair.take(q - a));
        if eq_chars(&key, name) {
            assert(v@.subrange(q + 1, b as int) =~= pair.skip(q - a + 1));
            return Some(q + 1);
        }
    }
    None
}

/// The session token of a `Cookie` header value, if it holds one.
pub fn token_from_cookie_header(header: &str) -> (r: Option<&str>)
    ensures
        r matches Some(t) ==> cookie_token_from(header@, 0) == Some(t@),
        r is None ==> cookie_token_from(header@, 0) is None,
{
    let hs = chars_of(header);
    let name = chars_of("cytrace_session");
    let mut from: usize = 0;
    loop
        invariant
            hs@ == header@,
            name@ == "cytrace_session"@,
            from <= hs@.len(),
            cookie_token_from(header@, 0) == cookie_token_from(header@, from as int),
        ensures
            cookie_token_from(header@, 0) is None,
        decreases hs@.len() - from,
    {
        let e = find_field_end(&hs, ';', from);
        let (a, b) = trim_range(&hs, from, e);
        if let Some(q) = session_value_start(&hs, &name, a, b) {
            let v = header.substring_char(q, b);
            return Some(v);
        }
        if e < hs.len() {
            from = e + 1;
        } else {
            break ;
        }
    }
    None
}

/// A session created at `now` validates, as that very session, at every time
/// before it expires, and never once it has expired.
pub proof fn law_created_session_validates_until_expiry(
    m: Map<Seq<u8>, Session>,
    k: Seq<u8>,
    now: int,
    ttl: int,
    later: int,
)
    requires
        0 <= now <= max_clock(),
        0 <= ttl <= 18446744073709551615int * 1000000000,
        later >= now,
    ensures
        validate_answer(create_after(m, k, now, ttl), k, later) == if later < now + ttl {
            Some(Session { created_at: now as u128, expires_at: (now + ttl) as u128 })
        } else {
            None
        },
{
    let s = Session { created_at: now as u128, expires_at: (now + ttl) as u128 };
    assert(create_after(m, k, now, ttl)[k] == s);
}

/// A revoked session never validates.
pub proof fn law_revoked_session_does_not_validate(m: Map<Seq<u8>, Session>, k: Seq<u8>, now: int)
    ensures
        validate_answer(m.remove(k), k, now) is None,
{
}

/// A session that validates has not expired; one that has expired is dropped
/// by the validation.
pub proof fn law_validation_answers_only_live_sessions(m: Map<Seq<u8>, Session>, k: Seq<u8>, now: int)
    ensures
        validate_answer(m, k, now) matches Some(s) ==> s.expires_at > now && m.dom().contains(k) && m[k] == s,
        validate_answer(m, k, now) is None ==> !validate_after(m, k, now).dom().contains(k),
{
}

proof fn lemma_field_end_of_prefix(h: Seq<char>, n: int)
    requires
        0 <= n <= h.len(),
        forall|i: int| 0 <= i < n ==> h[i] != ';',
        n < h.len() ==> h[n] == ';',
    ensures
        field_end(h, ';', 0) == n,
{
    lemma_field_end_down(h, n, n);
}

proof fn lemma_field_end_down(h: Seq<char>, n: int, j: int)
    requires
        0 <= j <= n <= h.len(),
        forall|i: int| 0 <= i < n ==> h[i] != ';',
        n < h.len() ==> h[n] == ';',
    ensures
        field_end(h, ';', n - j) == n,
    decreases j,
{
    if j > 0 {
        lemma_field_end_down(h, n, j - 1);
    }
}

/// The session token of a login cookie reads back from it: for a token with no
/// `;` that does not end in white space (a hex token, for one), the cookie's
/// `name=value` pair yields the token again.
pub proof fn law_login_cookie_token_reads_back(token: Seq<char>, secure: bool)
    requires
        forall|i: int| 0 <= i < token.len() ==> token[i] != ';',
        token.len() > 0 ==> !crate::text::is_ws(token.last()),
    ensures
        cookie_token_from("cytrace_session="@ + token + cookie_attrs(secure), 0) == Some(token),
{
    reveal_strlit("cytrace_session=");
    reveal_strlit("cytrace_session");
    reveal_strlit("; HttpOnly; SameSite=Strict; Path=/");
    let name = "cytrace_session="@;
    let h = name + token + cookie_attrs(secure);
    let n: int = (name.len() + token.len()) as int;
    assert(h[n] == ';');
    assert forall|i: int| 0 <= i < n implies h[i] != ';' by {
        if i >= name.len() {
            assert(h[i] == token[i - name.len()]);
        }
    }
    lemma_field_end_of_prefix(h, n);
    let pair = h.subrange(0, n);
    assert(pair =~= name + token);
    assert(!crate::text::is_ws(pair[0]));
    assert(crate::text::trim_start(pair) == pair);
    assert(!crate::text::is_ws(pair.last())) by {
        if token.len() == 0 {
            assert(pair.last() == '=');
        } else {
            assert(pair.last() == token.last());
        }
    }
    assert(crate::text::trim_end(pair) == pair);
    assert(pair[15] == '=');
    assert forall|k: int| 0 <= k < 15 implies pair[k] != '=' by {}
    let q = choose|i: int| 0 <= i < pair.len() && pair[i] == '=' && forall|k: int| 0 <= k < i ==> pair[k] != '=';
    assert(q == 15) by {
        if q < 15 {
            assert(pair[q] != '=');
        }
        if q > 15 {
            assert(pair[15] != '=');
        }
    }
    assert(pair.take(15) =~= "cytrace_session"@);
    assert(pair.skip(16) =~= token);
}

/// One call on the store, for reasoning about histories: `(0, key, t)` creates
/// the session of `key` at time `t` (`create_at`), `(1, key, t)` validates
/// `key` at time `t` (`validate_at`), and `(2, key, _)` revokes `key`
/// (`revoke`); other kinds change nothing.
pub open spec fn apply_op(m: Map<Seq<u8>, Session>, op: (int, Seq<u8>, int), ttl: int) -> Map<Seq<u8>, Session> {
    if op.0 == 0 {
        create_after(m, op.1, op.2, ttl)
    } else if op.0 == 1 {
        validate_after(m, op.1, op.2)
    } else if op.0 == 2 {
        m.remove(op.1)
    } else {
        m
    }
}

/// The sessions after the calls `ops`, in order, on a new store.
pub open spec fn replay(ops: Seq<(int, Seq<u8>, int)>, ttl: int) -> Map<Seq<u8>, Session>
    decreases ops.len(),
{
    if ops.len() == 0 {
        Map::empty()
    } else {
        apply_op(replay(ops.drop_last(), ttl), ops.last(), ttl)
    }
}

/// Whether a call reads the clock (creation and validation do; revocation does not).
pub open spec fn timed(op: (int, Seq<u8>, int)) -> bool {
    op.0 == 0 || op.0 == 1
}

/// The clock reading of the last call that read it, or 0.
pub open spec fn latest(ops: Seq<(int, Seq<u8>, int)>) -> int
    decreases ops.len(),
{
    if ops.len() == 0 {
        0
    } else if timed(ops.last()) {
        ops.last().2
    } else {
        latest(ops.drop_last())
    }
}

/// The last creation or revocation of `k` in `ops`: `Some((0, t))` for a
/// creation at `t`, `Some((2, 0))` for a revocation.
pub open spec fn last_event(ops: Seq<(int, Seq<u8>, int)>, k: Seq<u8>) -> Option<(int, int)>
    decreases ops.len(),
{
    if ops.len() == 0 {
        None
    } else if ops.last().1 == k && ops.last().0 == 0 {
        Some((0, ops.last().2))
    } else if ops.last().1 == k && ops.last().0 == 2 {
        Some((2, 0))
    } else {
        last_event(ops.drop_last(), k)
    }
}

/// The session created at `c` with time to live `ttl`.
pub open spec fn session_from(c: int, ttl: int) -> Session {
    Session { created_at: c as u128, expires_at: (c + ttl) as u128 }
}

/// Whether the clock readings of `ops` lie in range and never go back.
pub open spec fn clock_ordered(ops: Seq<(int, Seq<u8>, int)>) -> bool {
    &&& forall|i: int| 0 <= i < ops.len() && timed(ops[i]) ==> 0 <= #[trigger] ops[i].2 <= max_clock()
    &&& forall|i: int, j: int|
        0 <= i < j < ops.len() && timed(ops[i]) && timed(ops[j]) ==> #[trigger] ops[i].2
            <= #[trigger] ops[j].2
}

/// What the store holds for `k` after `ops`: the session of its last creation,
/// or nothing once that session was seen expired, or nothing after a revocation.
pub open spec fn holds_as_replayed(m: Map<Seq<u8>, Session>, ops: Seq<(int, Seq<u8>, int)>, k: Seq<u8>, ttl: int) -> bool {
    match last_event(ops, k) {
        Some((kind, c)) => if kind == 0 {
            (m.dom().contains(k) && m[k] == session_from(c, ttl)) || (!m.dom().contains(k) && c
                + ttl <= latest(ops))
        } else {
            !m.dom().contains(k)
        },
        None => !m.dom().contains(k),
    }
}

proof fn lemma_latest_bound(ops: Seq<(int, Seq<u8>, int)>, b: int)
    requires
        b >= 0,
        forall|i: int| 0 <= i < ops.len() && timed(ops[i]) ==> #[trigger] ops[i].2 <= b,
    ensures
        latest(ops) <= b,
    decreases ops.len(),
{
    if ops.len() > 0 {
        let p = ops.drop_last();
        assert forall|i: int| 0 <= i < p.len() && timed(p[i]) implies #[trigger] p[i].2 <= b by {
            assert(p[i] == ops[i]);
        }
        lemma_latest_bound(p, b);
    }
}

/// A creation time found in a prefix is a clock reading of the whole history.
proof fn lemma_event_time_kept(ops: Seq<(int, Seq<u8>, int)>, k: Seq<u8>)
    requires
        ops.len() > 0,
        last_event(ops, k) == last_event(ops.drop_last(), k),
        last_event(ops.drop_last(), k) matches Some((kind, c)) ==> (kind == 0 ==> exists|i: int|
            0 <= i < ops.drop_last().len() && timed(ops.drop_last()[i]) && #[trigger] ops.drop_last()[i].2
                == c),
    ensures
        last_event(ops, k) matches Some((kind, c)) ==> (kind == 0 ==> exists|i: int|
            0 <= i < ops.len() && timed(ops[i]) && #[trigger] ops[i].2 == c),
{
    let p = ops.drop_last();
    if let Some((kind, c)) = last_event(ops, k) {
        if kind == 0 {
            let i = choose|i: int| 0 <= i < p.len() && timed(p[i]) && #[trigger] p[i].2 == c;
            assert(p[i] == ops[i]);
        }
    }
}

proof fn lemma_replay_holds(ops: Seq<(int, Seq<u8>, int)>, k: Seq<u8>, ttl: int)
    requires
        clock_ordered(ops),
        0 <= ttl <= 18446744073709551615int * 1000000000,
    ensures
        holds_as_replayed(replay(ops, ttl), ops, k, ttl),
        latest(ops) >= 0,
        last_event(ops, k) matches Some((kind, c)) ==> (kind == 0 ==> 0 <= c <= max_clock() && c
            <= latest(ops) && exists|i: int|
            0 <= i < ops.len() && timed(ops[i]) && #[trigger] ops[i].2 == c),
    decreases ops.len(),
{
    if ops.len() > 0 {
        let p = ops.drop_last();
        let op = ops.last();
        assert(op == ops[ops.len() - 1]);
        assert(clock_ordered(p)) by {
            assert forall|i: int| 0 <= i < p.len() && timed(p[i]) implies 0 <= #[trigger] p[i].2
                <= max_clock() by {
                assert(p[i] == ops[i]);
            }
            assert forall|i: int, j: int|
                0 <= i < j < p.len() && timed(p[i]) && timed(p[j]) implies #[trigger] p[i].2
                <= #[trigger] p[j].2 by {
                assert(p[i] == ops[i]);
                assert(p[j] == ops[j]);
            }
        }
        lemma_replay_holds(p, k, ttl);
        let m0 = replay(p, ttl);
        let m1 = replay(ops, ttl);
        assert(m1 == apply_op(m0, op, ttl));
        if timed(op) {
            assert forall|i: int| 0 <= i < p.len() && timed(p[i]) implies #[trigger] p[i].2
                <= op.2 by {
                assert(p[i] == ops[i]);
            }
            lemma_latest_bound(p, op.2);
            assert(latest(ops) == op.2);
            assert(0 <= op.2 <= max_clock());
        } else {
            assert(latest(ops) == latest(p));
        }
        let t = op.2;
        if op.0 == 0 {
            if op.1 == k {
                assert(last_event(ops, k) == Some((0int, t)));
                assert(ops[ops.len() - 1].2 == t);
                assert(m1.dom().contains(k));
                assert(m1[k] == session_from(t, ttl));
            } else {
                assert(last_event(ops, k) == last_event(p, k));
                lemma_event_time_kept(ops, k);
                assert(m1.dom().contains(k) == (m0.dom().contains(k) && m0[k].expires_at > t));
                if m1.dom().contains(k) {
                    assert(m1[k] == m0[k]);
                }
            }
        } else if op.0 == 1 {
            assert(last_event(ops, k) == last_event(p, k));
            lemma_event_time_kept(ops, k);
            if op.1 == k && m0.dom().contains(k) && m0[k].expires_at <= t {
                assert(!m1.dom().contains(k));
            } else {
                assert(m1.dom().contains(k) == m0.dom().contains(k));
                if m1.dom().contains(k) {
                    assert(m1[k] == m0[k]);
                }
            }
        } else if op.0 == 2 {
            if op.1 == k {
                assert(last_event(ops, k) == Some((2int, 0int)));
                assert(!m1.dom().contains(k));
            } else {
                assert(last_event(ops, k) == last_event(p, k));
                lemma_event_time_kept(ops, k);
                assert(m1.dom().contains(k) == m0.dom().contains(k));
                if m1.dom().contains(k) {
                    assert(m1[k] == m0[k]);
                }
            }
        } else {
            assert(last_event(ops, k) == last_event(p, k));
            lemma_event_time_kept(ops, k);
            assert(m1 == m0);
        }
    }
}

/// Sessions over a history of calls: after any calls on a new store, with a
/// clock that never goes back, validating `k` at a time `now` no earlier than
/// any of them answers the session of the last creation of `k`, while
/// `now < created + ttl`; it answers nothing after a revocation of `k`, once
/// that session has expired, or when `k` was never created. No call extends a
/// session.
pub proof fn law_session_history(ops: Seq<(int, Seq<u8>, int)>, k: Seq<u8>, ttl: int, now: int)
    requires
        clock_ordered(ops),
        0 <= ttl <= 18446744073709551615int * 1000000000,
        forall|i: int| 0 <= i < ops.len() && timed(ops[i]) ==> #[trigger] ops[i].2 <= now,
    ensures
        validate_answer(replay(ops, ttl), k, now) == match last_event(ops, k) {
            Some((kind, c)) => if kind == 0 && now < c + ttl {
                Some(session_from(c, ttl))
            } else {
                None
            },
            None => None,
        },
{
    lemma_replay_holds(ops, k, ttl);
    let m = replay(ops, ttl);
    if let Some((kind, c)) = last_event(ops, k) {
        if kind == 0 {
            assert(0 <= c <= max_clock());
            let i = choose|i: int| 0 <= i < ops.len() && timed(ops[i]) && #[trigger] ops[i].2 == c;
            assert(c <= now);
            lemma_latest_bound(ops, now);
            if m.dom().contains(k) && m[k] == session_from(c, ttl) {
                assert(m[k].expires_at == c + ttl);
            }
        }
    }
}

} // verus!
