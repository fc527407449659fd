use cytrace::i18n::{interpolate, lookup, Catalog, JsonValue};

fn s(t: &str) -> JsonValue {
    JsonValue::Str(t.to_string())
}

fn obj(members: Vec<(&str, JsonValue)>) -> JsonValue {
    JsonValue::Object(members.into_iter().map(|(k, v)| (k.to_string(), v)).collect())
}

fn zh_tw() -> JsonValue {
    obj(vec![
        ("severity", obj(vec![("critical", s("極高")), ("high", s("高"))])),
        ("report", obj(vec![("notes", obj(vec![("title", s("附註"))]))])),
        ("cli", obj(vec![("scanning", s("掃描中：{{target}}"))])),
        ("only_zh", s("只有中文")),
    ])
}

fn en_us() -> JsonValue {
    obj(vec![
        ("severity", obj(vec![("critical", s("Critical")), ("high", s("High"))])),
        ("cli", obj(vec![("scanning", s("Scanning {{target}}"))])),
    ])
}

fn load(lang: &str) -> Catalog {
    Catalog::load(lang, en_us(), zh_tw())
}

#[test]
fn nested_key_lookup_works() {
    let c = load("zh-TW");
    assert_eq!(c.t("severity.critical", &[]), "極高");
    assert_eq!(c.t("report.notes.title", &[]), "附註");
}

#[test]
fn english_catalog_selected() {
    let c = load("en-US");
    assert_eq!(c.t("severity.critical", &[]), "Critical");
}

#[test]
fn interpolation_substitutes_vars() {
    let c = load("zh-TW");
    assert_eq!(
        c.t("cli.scanning", &[("target", "dir:/srv")]),
        "掃描中：dir:/srv"
    );
}

#[test]
fn missing_key_returns_key_itself() {
    let c = load("en-US");
    assert_eq!(c.t("no.such.key", &[]), "no.such.key");
}

#[test]
fn english_falls_back_to_zh_tw_for_missing_keys() {
    let c = load("EN");
    assert_eq!(c.t("only_zh", &[]), "只有中文");
    assert_eq!(c.t("report.notes.title", &[]), "附註");
}

#[test]
fn language_codes_select_english_by_prefix_only() {
    assert_eq!(load("En-gb").t("severity.high", &[]), "High");
    assert_eq!(load("fr").t("severity.high", &[]), "高");
    assert_eq!(load("").t("severity.high", &[]), "高");
}

#[test]
fn lookup_needs_a_string_at_the_end_of_the_path() {
    let zh = zh_tw();
    assert_eq!(lookup(&zh, "severity"), None);
    assert_eq!(lookup(&zh, "severity.critical.x"), None);
    assert_eq!(lookup(&zh, "severity..critical"), None);
    assert_eq!(lookup(&zh, "report.notes.title"), Some("附註".to_string()));
    let arr = JsonValue::Array(vec![s("x")]);
    assert_eq!(lookup(&arr, "0"), None);
}

#[test]
fn interpolation_replaces_every_occurrence_in_order() {
    assert_eq!(interpolate("{{a}}-{{a}}-{{b}}", &[("a", "1"), ("b", "2")]), "1-1-2");
    assert_eq!(interpolate("{{a}}", &[("a", "{{b}}"), ("b", "x")]), "x");
    assert_eq!(interpolate("{a} {{c}}", &[("a", "1")]), "{a} {{c}}");
}
