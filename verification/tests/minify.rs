use shelly_rpc::minify::{codegen_failure, located, minify, non_utf8_failure, parse_failure};

fn min(src: &str) -> String {
    minify(src, "test.js").expect("minify should succeed")
}

#[test]
fn strips_comments() {
    let out = min("// header\nlet x = 1; /* mid */ let y = 2;\n");
    assert!(!out.contains("//"));
    assert!(!out.contains("/*"));
}

#[test]
fn mangles_top_level_identifier() {
    let out = min("let WASHER_SWITCH_ID = 3; print(WASHER_SWITCH_ID);");
    assert!(
        !out.contains("WASHER_SWITCH_ID"),
        "expected identifier mangling, got: {out}"
    );
}

#[test]
fn preserves_unresolved_globals() {
    let out = min("Shelly.call(\"Switch.GetStatus\", { id: 0 });");
    assert!(out.contains("Shelly"), "expected Shelly to survive, got: {out}");
}

#[test]
fn does_not_emit_arrow_functions() {
    let out = min(
        "function tick() { Timer.set(2000, true, function () { print(\"hi\"); }); } tick();",
    );
    assert!(
        !out.contains("=>"),
        "expected no arrow functions in ES5 output, got: {out}"
    );
}

#[test]
fn preserves_string_contents() {
    let out = min(r#"print("hello // not a comment /* nope */");"#);
    assert!(out.contains("hello // not a comment /* nope */"));
}

#[test]
fn returns_error_on_invalid_syntax() {
    assert!(minify("function (", "test.js").is_err());
}

#[test]
fn empty_input() {
    let out = min("");
    assert_eq!(out, "");
}

#[test]
fn invalid_syntax_reports_a_located_parse_error() {
    let e = minify("function (", "test.js").unwrap_err();
    assert!(e.starts_with("parse error: test.js:1:"), "got: {e}");
}

#[test]
fn located_counts_columns_from_one() {
    assert_eq!(
        located("a.js".to_string(), 3, 0, "Unexpected token".to_string()),
        "a.js:3:1: Unexpected token"
    );
    assert_eq!(
        located("b.js".to_string(), 12, 41, "x".to_string()),
        "b.js:12:42: x"
    );
    assert_eq!(
        located("c".to_string(), 1, u64::MAX as usize, "m".to_string()),
        "c:1:18446744073709551616: m"
    );
    assert_eq!(non_utf8_failure("bad"), "non-UTF8 codegen output: bad");
}

#[test]
fn parse_failure_messages() {
    assert_eq!(parse_failure(None, &vec![]), None);
    assert_eq!(
        parse_failure(Some("a.js:1:5: Unexpected token".to_string()), &vec!["x".to_string()]),
        Some("parse error: a.js:1:5: Unexpected token".to_string())
    );
    assert_eq!(
        parse_failure(None, &vec!["a.js:1:1: one".to_string(), "a.js:2:3: two".to_string()]),
        Some("parse errors: a.js:1:1: one; a.js:2:3: two".to_string())
    );
    assert_eq!(codegen_failure("boom"), "codegen error: boom");
}
