use cytrace::error::CytraceError;
use cytrace::report::{escape_for_script, render_with_template, DATA_SENTINEL};

const TEMPLATE: &str = "<html><head><!--CYTRACE_DATA--></head><body></body></html>";

fn sample_json() -> String {
    let mut j = String::new();
    j.push_str("{\"schema_version\":1,\"meta\":{\"target\":\"dir:/srv/app\",");
    j.push_str("\"tool_versions\":{\"syft\":\"1.0\",\"grype\":\"0.74\"},");
    j.push_str("\"db_snapshot\":{\"version\":\"5\",\"built\":\"2026-06-01\"},");
    j.push_str("\"generated_at\":\"2026-06-24T00:00:00Z\"},\"components\":[],");
    j.push_str("\"findings\":[{\"id\":\"CVE-2024-0001\",\"severity\":\"high\",\"cvss\":7.5,");
    j.push_str("\"component\":\"evil</script><b>\",\"fixed_version\":null,\"source\":\"nvd\"}],");
    j.push_str("\"summary\":{\"counts_by_severity\":{},\"overall_risk\":\"high\"}}");
    j
}

#[test]
fn injects_data_at_sentinel() {
    let html = render_with_template(&sample_json(), TEMPLATE).unwrap();
    assert!(html.contains("<script id=\"cytrace-data\" type=\"application/json\">"));
    assert!(!html.contains(DATA_SENTINEL), "the sentinel must have been replaced");
    assert!(html.contains("CVE-2024-0001"));
}

#[test]
fn escapes_closing_script_to_prevent_breakout() {
    let html = render_with_template(&sample_json(), TEMPLATE).unwrap();
    assert!(html.contains("<\\/script>"));
    let data_seg = html.split("type=\"application/json\">").nth(1).unwrap();
    let before_close = data_seg.split("</script>").next().unwrap();
    assert!(!before_close.contains("</script>"));
}

#[test]
fn missing_sentinel_is_config_error() {
    let err = render_with_template(&sample_json(), "<html>no sentinel</html>").unwrap_err();
    assert!(matches!(err, CytraceError::Config(_)));
    assert_eq!(
        err,
        CytraceError::Config("報表樣板缺少注入點 <!--CYTRACE_DATA-->".to_string())
    );
}

#[test]
fn escape_handles_slashes_and_line_terminators() {
    assert_eq!(escape_for_script("a</b"), "a<\\/b");
    assert_eq!(escape_for_script("x\u{2028}y\u{2029}z"), "x\\u2028y\\u2029z");
    assert_eq!(escape_for_script("<</"), "<<\\/");
    assert_eq!(escape_for_script("/<"), "/<");
    assert_eq!(escape_for_script(""), "");
}

#[test]
fn every_sentinel_is_replaced_exactly_with_the_data_element() {
    let html = render_with_template("{}", "A<!--CYTRACE_DATA-->B<!--CYTRACE_DATA-->").unwrap();
    let tag = "<script id=\"cytrace-data\" type=\"application/json\">{}</script>";
    assert_eq!(html, format!("A{tag}B{tag}"));
}

#[test]
fn escaped_json_decodes_to_the_same_value() {
    let original = "{\"a\":\"x</script>y\u{2028}z\u{2029}\",\"b\":[\"</\",\"<\\/\"]}";
    let escaped = escape_for_script(original);
    assert!(!escaped.contains("</"));
    assert!(!escaped.contains('\u{2028}') && !escaped.contains('\u{2029}'));
    let v1: serde_json::Value = serde_json::from_str(original).unwrap();
    let v2: serde_json::Value = serde_json::from_str(&escaped).unwrap();
    assert_eq!(v1, v2);
}
