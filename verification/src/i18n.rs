//! Bilingual message catalog. Messages sit in nested JSON objects and are
//! found by a dotted path (`report.notes.title`); a missing key falls back to
//! the zh-TW catalog and then to the key itself; `{{name}}` placeholders are
//! filled from the given variables.
use vstd::prelude::*;
use crate::text::{
    ascii_lower, chars_of, eq_chars, has_prefix, push_str, replace_all,
    replace_chars, starts_with_chars, string_from_chars, to_ascii_lower,
};

verus! {

/// A JSON document as the catalog reads it. Numbers are kept as their text.
#[derive(Debug)]
pub enum JsonValue {
    Null,
    Bool(bool),
    Number(String),
    Str(String),
    Array(Vec<JsonValue>),
    Object(Vec<(String, JsonValue)>),
}

/// The value stored under `key` in the members of an object: that of the
/// first member with this name.
pub open spec fn member(entries: Seq<(String, JsonValue)>, key: Seq<char>) -> Option<JsonValue>
    decreases entries.len(),
{
    if entries.len() == 0 {
        None
    } else if entries[0].0@ == key {
        Some(entries[0].1)
    } else {
        member(entries.drop_first(), key)
    }
}

/// The member `key` of `v` when `v` is an object, as `Value::get` gives it.
pub open spec fn child(v: JsonValue, key: Seq<char>) -> Option<JsonValue> {
    match v {
        JsonValue::Object(entries) => member(entries@, key),
        _ => None,
    }
}

/// The node reached from `v` by following the names of `path`, in order.
pub open spec fn walk(v: JsonValue, path: Seq<Seq<char>>) -> Option<JsonValue>
    decreases path.len(),
{
    if path.len() == 0 {
        Some(v)
    } else {
        match walk(v, path.drop_last()) {
            Some(n) => child(n, path.last()),
            None => None,
        }
    }
}

/// The parts of `s` between dots, as `str::split('.')` yields them.
pub open spec fn split_dots(s: Seq<char>) -> Seq<Seq<char>>
    decreases s.len(),
{
    if s.len() == 0 {
        seq![Seq::<char>::empty()]
    } else {
        let before = split_dots(s.drop_last());
        if s.last() == '.' {
            before.push(Seq::<char>::empty())
        } else {
            before.update(before.len() - 1, before.last().push(s.last()))
        }
    }
}

/// The text found under the dotted `key` in `root`, if that node is a string.
pub open spec fn lookup_text(root: JsonValue, key: Seq<char>) -> Option<Seq<char>> {
    match walk(root, split_dots(key)) {
        Some(JsonValue::Str(s)) => Some(s@),
        _ => None,
    }
}

/// The placeholder `{{name}}`.
pub open spec fn placeholder(name: Seq<char>) -> Seq<char> {
    seq!['{', '{'] + name + seq!['}', '}']
}

/// `template` with the placeholder of each variable replaced by its value,
/// one variable after another.
pub open spec fn interpolated(template: Seq<char>, vars: Seq<(Seq<char>, Seq<char>)>) -> Seq<char>
    decreases vars.len(),
{
    if vars.len() == 0 {
        template
    } else {
        interpolated(
            replace_all(template, placeholder(vars[0].0), vars[0].1),
            vars.drop_first(),
        )
    }
}

/// The variables as plain text.
pub open spec fn vars_view(vars: Seq<(&str, &str)>) -> Seq<(Seq<char>, Seq<char>)> {
    vars.map_values(|p: (&str, &str)| (p.0@, p.1@))
}

/// Whether a language code selects the English catalog: it begins with `en`,
/// in any case.
pub open spec fn selects_english(code: Seq<char>) -> bool {
    has_prefix(ascii_lower(code), seq!['e', 'n'])
}

/// The parts of `key` between dots.
fn split_key(key: &[char]) -> (r: Vec<Vec<char>>)
    ensures
        r@.map_values(|p: Vec<char>| p@) == split_dots(key@),
        r@.len() >= 1,
{
    let mut parts: Vec<Vec<char>> = Vec::new();
    let mut cur: Vec<char> = Vec::new();
    let n = key.len();
    let mut i: usize = 0;
    assert(key@.take(0) =~= Seq::<char>::empty());
    while i < n
        invariant
            n == key@.len(),
            i <= n,
            parts@.map_values(|p: Vec<char>| p@).push(cur@) == split_dots(key@.take(i as int)),
        decreases n - i,
    {
        let c = key[i];
        let ghost before = parts@.map_values(|p: Vec<char>| p@).push(cur@);
        assert(key@.take(i + 1).drop_last() =~= key@.take(i as int));
        assert(key@.take(i + 1).last() == c);
        if c == '.' {
            let done = cur;
            parts.push(done);
            cur = Vec::new();
            assert(parts@.map_values(|p: Vec<char>| p@).push(cur@) =~= before.push(
                Seq::<char>::empty(),
            ));
        } else {
            cur.push(c);
            assert(parts@.map_values(|p: Vec<char>| p@).push(cur@) =~= before.update(
                before.len() - 1,
                before.last().push(c),
            ));
        }
        i = i + 1;
    }
    assert(key@.take(n as int) =~= key@);
    let ghost all = parts@.map_values(|p: Vec<char>| p@).push(cur@);
    parts.push(cur);
    assert(parts@.map_values(|p: Vec<char>| p@) =~= all);
    parts
}

/// The member `key` of `v`, if `v` is an object that has one.
fn child_of<'a>(v: &'a JsonValue, key: &[char]) -> (r: Option<&'a JsonValue>)
    ensures
        r matches Some(c) ==> child(*v, key@) == Some(*c),
        r is None ==> child(*v, key@) is None,
{
    match v {
        JsonValue::Object(entries) => {
            let n = entries.len();
            let mut i: usize = 0;
            assert(entries@.skip(0) =~= entries@);
            while i < n
                invariant
                    n == entries@.len(),
                    child(*v, key@) == member(entries@, key@),
                    i <= n,
                    member(entries@, key@) == member(entries@.skip(i as int), key@),
                decreases n - i,
            {
                let name = chars_of(entries[i].0.as_str());
                assert(entries@.skip(i as int)[0] == entries@[i as int]);
                if eq_chars(&name, key) {
                    return Some(&entries[i].1);
                }
                assert(entries@.skip(i as int).drop_first() =~= entries@.skip(i + 1));
                i = i + 1;
            }
            None
        },
        _ => None,
    }
}

/// The text under the dotted `key` in `root`, if there is one.
pub fn lookup(root: &JsonValue, key: &str) -> (r: Option<String>)
    ensures
        r matches Some(s) ==> lookup_text(*root, key@) == Some(s@),
        r is None ==> lookup_text(*root, key@) is None,
{
    let k = chars_of(key);
    let parts = split_key(&k);
    let ghost path = parts@.map_values(|p: Vec<char>| p@);
    let mut cur: &JsonValue = root;
    let n = parts.len();
    let mut i: usize = 0;
    assert(path.take(0) =~= Seq::<Seq<char>>::empty());
    while i < n
        invariant
            n == parts@.len(),
            path == parts@.map_values(|p: Vec<char>| p@),
            path == split_dots(key@),
            i <= n,
            walk(*root, path.take(i as int)) == Some(*cur),
        decreases n - i,
    {
        assert(path.take(i + 1).drop_last() =~= path.take(i as int));
        assert(path.take(i + 1).last() == parts@[i as int]@);
        match child_of(cur, &parts[i]) {
            Some(next) => {
                cur = next;
            },
            None => {
                proof {
                    lemma_walk_stops(*root, path, i as int);
                }
                return None;
            },
        }
        i = i + 1;
    }
    assert(path.take(n as int) =~= path);
    match cur {
        JsonValue::Str(s) => Some(s.clone()),
        _ => None,
    }
}

/// Once a walk stops, a longer path stops too.
proof fn lemma_walk_stops(v: JsonValue, path: Seq<Seq<char>>, i: int)
    requires
        0 <= i < path.len(),
        walk(v, path.take(i + 1)) is None,
    ensures
        walk(v, path) is None,
    decreases path.len() - i,
{
    if i + 1 < path.len() {
        assert(path.take(i + 2).drop_last() =~= path.take(i + 1));
        lemma_walk_stops(v, path, i + 1);
    } else {
        assert(path.take(i + 1) =~= path);
    }
}

/// `template` with each `{{name}}` placeholder of `vars` filled in.
pub fn interpolate(template: &str, vars: &[(&str, &str)]) -> (r: String)
    ensures
        r@ == interpolated(template@, vars_view(vars@)),
{
    let mut out = chars_of(template);
    let n = vars.len();
    let mut i: usize = 0;
    assert(vars_view(vars@).skip(0) =~= vars_view(vars@));
    while i < n
        invariant
            n == vars@.len(),
            i <= n,
            interpolated(template@, vars_view(vars@)) == interpolated(
                out@,
                vars_view(vars@).skip(i as int),
            ),
        decreases n - i,
    {
        let (name, value) = vars[i];
        let mut pat: Vec<char> = Vec::new();
        pat.push('{');
        pat.push('{');
        push_str(&mut pat, name);
        pat.push('}');
        pat.push('}');
        let val = chars_of(value);
        assert(pat@ =~= placeholder(name@));
        let next = replace_chars(&out, &pat, &val);
        assert(vars_view(vars@).skip(i as int)[0] == (name@, value@));
        assert(vars_view(vars@).skip(i as int).drop_first() =~= vars_view(vars@).skip(i + 1));
        out = next;
        i = i + 1;
    }
    assert(vars_view(vars@).skip(n as int) =~= Seq::<(Seq<char>, Seq<char>)>::empty());
    string_from_chars(&out)
}

/// A loaded catalog: the tables of both languages and which one answers first.
/// The zh-TW table is always the fallback.
#[derive(Debug)]
pub struct Catalog {
    english: bool,
    en_us: JsonValue,
    zh_tw: JsonValue,
}

impl Catalog {
    /// Whether the English table answers first.
    pub closed spec fn is_english(&self) -> bool {
        self.english
    }

    /// The table that answers first.
    pub closed spec fn primary(&self) -> JsonValue {
        if self.english {
            self.en_us
        } else {
            self.zh_tw
        }
    }

    /// The fallback table (zh-TW).
    pub closed spec fn fallback(&self) -> JsonValue {
        self.zh_tw
    }

    /// The message for `key`: from the primary table, else from the fallback,
    /// else the key itself.
    pub open spec fn raw_message(&self, key: Seq<char>) -> Seq<char> {
        match lookup_text(self.primary(), key) {
            Some(s) => s,
            None => match lookup_text(self.fallback(), key) {
                Some(s) => s,
                None => key,
            },
        }
    }

    /// Loads the catalog for a language code: codes that begin with `en`, in
    /// any case, select English; every other code selects zh-TW.
    pub fn load(lang: &str, en_us: JsonValue, zh_tw: JsonValue) -> (r: Catalog)
        ensures
            r.is_english() == selects_english(lang@),
            r.primary() == (if selects_english(lang@) { en_us } else { zh_tw }),
            r.fallback() == zh_tw,
    {
        let code = chars_of(lang);
        let lower = to_ascii_lower(&code);
        let english = starts_with_chars(&lower, &['e', 'n']);
        proof {
            assert(seq!['e', 'n'] =~= ['e', 'n']@);
        }
        Catalog { english, en_us, zh_tw }
    }

    /// The message for `key` with its placeholders filled from `vars`. A key
    /// that neither table holds comes back as itself.
    pub fn t(&self, key: &str, vars: &[(&str, &str)]) -> (r: String)
        ensures
            r@ == interpolated(self.raw_message(key@), vars_view(vars@)),
    {
        let primary = if self.english {
            &self.en_us
        } else {
            &self.zh_tw
        };
        let raw = match lookup(primary, key) {
            Some(s) => s,
            None => match lookup(&self.zh_tw, key) {
                Some(s) => s,
                None => string_from_chars(&chars_of(key)),
            },
        };
        interpolate(raw.as_str(), vars)
    }
}

/// A missing key shows itself, so that a message absent from both tables is noticed:
/// when neither table holds `key`, the message is `key` with its placeholders
/// filled in.
pub proof fn law_missing_key_is_shown_as_itself(c: Catalog, key: Seq<char>)
    requires
        lookup_text(c.primary(), key) is None,
        lookup_text(c.fallback(), key) is None,
    ensures
        c.raw_message(key) == key,
{
}

/// The fallback answers whatever the primary table lacks.
pub proof fn law_fallback_fills_missing_keys(c: Catalog, key: Seq<char>, text: Seq<char>)
    requires
        lookup_text(c.primary(), key) is None,
        lookup_text(c.fallback(), key) == Some(text),
    ensures
        c.raw_message(key) == text,
{
}

} // verus!
