use base64::Engine;
use shelly_rpc::cloud::CloudClient;
use shelly_rpc::cloud_config::{
    build_kvs_body, config_json, config_path, diy_config_path, normalize_server_uri, parse_config,
};
use shelly_rpc::json_text::{json_escape, json_extract_string, json_unescape, preceded_by_key_boundary};
use shelly_rpc::login::{
    authorize_url, classify_callback, extract_query_param, jwt_extract_field, jwt_payload_field,
    login_credentials, percent_encode, redirect_uri, url_decode, CallbackRequest,
};

// ── json_extract_string ──────────────────────────────────────────────

#[test]
fn extracts_simple_string() {
    let json = r#"{"user_api_url":"https://shelly-96-eu.shelly.cloud"}"#;
    assert_eq!(
        json_extract_string(json, "user_api_url"),
        Some("https://shelly-96-eu.shelly.cloud".to_string())
    );
}

#[test]
fn extracts_string_with_whitespace() {
    let json = r#"{ "user_api_url" : "https://ex.com" }"#;
    assert_eq!(
        json_extract_string(json, "user_api_url"),
        Some("https://ex.com".to_string())
    );
}

#[test]
fn returns_none_for_missing_key() {
    let json = r#"{"other":"value"}"#;
    assert_eq!(json_extract_string(json, "user_api_url"), None);
}

#[test]
fn unescapes_quoted_string() {
    let json = r#"{"name":"he said \"hi\""}"#;
    assert_eq!(
        json_extract_string(json, "name"),
        Some(r#"he said "hi""#.to_string())
    );
}

#[test]
fn unescapes_newline_and_tab() {
    let json = r#"{"text":"line1\nline2\ttabbed"}"#;
    assert_eq!(
        json_extract_string(json, "text"),
        Some("line1\nline2\ttabbed".to_string())
    );
}

#[test]
fn rejects_substring_false_match_in_value() {
    let json = r#"{"comment":"\"user_api_url\":\"https://evil.com\"","user_api_url":"https://good.com"}"#;
    assert_eq!(
        json_extract_string(json, "user_api_url"),
        Some("https://good.com".to_string())
    );
}

#[test]
fn rejects_key_substring_match() {
    let json = r#"{"xuser_api_url":"wrong","user_api_url":"right"}"#;
    assert_eq!(
        json_extract_string(json, "user_api_url"),
        Some("right".to_string())
    );
}

#[test]
fn rejects_name_in_value_with_no_real_key() {
    let json = r#"{"comment":"the field user_api_url is required"}"#;
    assert_eq!(json_extract_string(json, "user_api_url"), None);
}

#[test]
fn extract_stops_at_unterminated_string() {
    assert_eq!(json_extract_string(r#"{"a":"open"#, "a"), None);
    assert_eq!(json_extract_string(r#"{"a":"x\"#, "a"), None);
}

#[test]
fn extract_skips_key_without_string_value() {
    let json = r#"{"a":1,"b":{"a":"inner"}}"#;
    assert_eq!(json_extract_string(json, "a"), Some("inner".to_string()));
}

#[test]
fn extract_handles_non_ascii_values() {
    let json = "{\"k\":\u{a0}:\"caf\u{e9} \u{1d54f}\"}";
    assert_eq!(json_extract_string(json, "k"), None);
    let json = "{\"k\"\u{3000}:\u{3000}\"caf\u{e9} \u{1d54f}\"}";
    assert_eq!(
        json_extract_string(json, "k"),
        Some("caf\u{e9} \u{1d54f}".to_string())
    );
}

#[test]
fn key_boundary_check() {
    let json = r#"{ "a":1, "b":"x"}"#;
    assert!(preceded_by_key_boundary(json, 2));
    assert!(preceded_by_key_boundary(json, 9));
    assert!(!preceded_by_key_boundary(json, 5));
    assert!(!preceded_by_key_boundary(json, 0));
}

// ── escaping ─────────────────────────────────────────────────────────

#[test]
fn json_escape_escapes_specials_only() {
    assert_eq!(json_escape("a\"b\\c\nd\re\tf/é"), "a\\\"b\\\\c\\nd\\re\\tf/é");
}

#[test]
fn json_unescape_handles_known_and_unknown_escapes() {
    assert_eq!(json_unescape(r#"a\/b\u0041\"c\\"#), "a/b\\u0041\"c\\");
    assert_eq!(json_unescape("trailing\\"), "trailing\\");
}

#[test]
fn unescape_undoes_escape() {
    for s in ["", "plain", "q\"uo\\te", "\n\r\t", "\\n literally", "ünïcödé \u{1d54f}"] {
        assert_eq!(json_unescape(&json_escape(s)), s);
    }
}

// ── credentials file ─────────────────────────────────────────────────

#[test]
fn config_json_layout() {
    assert_eq!(
        config_json("https://ex.com", "k\"1"),
        "{\n  \"server_uri\": \"https://ex.com\",\n  \"auth_key\": \"k\\\"1\"\n}\n"
    );
}

#[test]
fn config_reads_back_what_was_written() {
    let cases = [
        ("https://shelly-96-eu.shelly.cloud", "abc123"),
        ("https://ex.com//", "auth_key"),
        ("\"server_uri\": \"evil\"", "\\\"auth_key\\\": x"),
        ("", ""),
    ];
    for (server, key) in cases {
        let text = config_json(server, key);
        let cfg = parse_config(&text).ok().unwrap();
        assert_eq!(cfg.server, normalize_server_uri(server));
        assert_eq!(cfg.auth_key, key);
    }
}

#[test]
fn config_missing_fields() {
    assert_eq!(
        parse_config(r#"{"auth_key":"k"}"#).err(),
        Some("missing server_uri in config".to_string())
    );
    assert_eq!(
        parse_config(r#"{"server_uri":"https://ex.com"}"#).err(),
        Some("missing auth_key in config".to_string())
    );
}

#[test]
fn config_paths_under_home() {
    assert_eq!(
        config_path(Some("/home/me")).unwrap(),
        "/home/me/.config/shelly/cloud.json"
    );
    assert_eq!(
        diy_config_path(Some("/home/me/")).unwrap(),
        "/home/me/.config/shelly/cloud-diy.json"
    );
    let msg = "HOME environment variable is not set; cannot determine config directory";
    assert_eq!(config_path(None).err(), Some(msg.to_string()));
    assert_eq!(diy_config_path(Some("")).err(), Some(msg.to_string()));
}

#[test]
fn normalize_strips_all_trailing_slashes() {
    assert_eq!(normalize_server_uri("https://ex.com///"), "https://ex.com");
    assert_eq!(normalize_server_uri("https://ex.com/a"), "https://ex.com/a");
    assert_eq!(normalize_server_uri("///"), "");
}

// ── build_kvs_body ───────────────────────────────────────────────────

#[test]
fn build_kvs_body_round_trips_via_serde() {
    let body = build_kvs_body(
        "https://shelly-96-eu.shelly.cloud",
        "abc123",
        &[10, 20, 30, 40],
    );
    let outer: serde_json::Value = serde_json::from_str(&body).unwrap();
    assert_eq!(outer["key"], "cloud");
    let value_str = outer["value"].as_str().expect("value is a string");
    let inner: serde_json::Value = serde_json::from_str(value_str).unwrap();
    assert_eq!(inner["u"], "https://shelly-96-eu.shelly.cloud");
    assert_eq!(inner["k"], "abc123");
    assert_eq!(inner["ws"], 10);
    assert_eq!(inner["wd"], 20);
    assert_eq!(inner["ds"], 30);
    assert_eq!(inner["dd"], 40);
}

#[test]
fn build_kvs_body_escapes_quotes_and_backslashes_in_key() {
    let key = "ke\\\"y\\\n";
    let body = build_kvs_body("https://ex.com", key, &[0, 0, 0, 0]);
    let outer: serde_json::Value = serde_json::from_str(&body).unwrap();
    let value_str = outer["value"].as_str().unwrap();
    let inner: serde_json::Value = serde_json::from_str(value_str).unwrap();
    assert_eq!(inner["k"], key);
}

#[test]
fn build_kvs_body_handles_u64_max() {
    let body = build_kvs_body("https://ex.com", "k", &[u64::MAX, 0, 0, 0]);
    let outer: serde_json::Value = serde_json::from_str(&body).unwrap();
    let value_str = outer["value"].as_str().unwrap();
    let inner: serde_json::Value = serde_json::from_str(value_str).unwrap();
    assert_eq!(inner["ws"].as_u64(), Some(u64::MAX));
}

#[test]
fn build_kvs_body_exact_text() {
    assert_eq!(
        build_kvs_body("s", "k", &[1, 2, 3, 4]),
        r#"{"key":"cloud","value":"{\"u\":\"s\",\"k\":\"k\",\"ws\":1,\"wd\":2,\"ds\":3,\"dd\":4}"}"#
    );
}

// ── url_decode (exercised through extract_query_param) ──────────────

#[test]
fn query_param_decodes_percent_escapes() {
    let url = "http://127.0.0.1:9999/?code=hello%20world";
    assert_eq!(
        extract_query_param(url, "code"),
        Some("hello world".to_string())
    );
}

#[test]
fn query_param_decodes_plus_as_space() {
    let url = "http://127.0.0.1/?q=hello+world";
    assert_eq!(
        extract_query_param(url, "q"),
        Some("hello world".to_string())
    );
}

#[test]
fn query_param_returns_none_for_missing_key() {
    let url = "http://127.0.0.1/?code=xyz";
    assert_eq!(extract_query_param(url, "state"), None);
}

#[test]
fn query_param_ignores_fragment() {
    let url = "http://127.0.0.1/?code=abc#fragment&code=ignored";
    assert_eq!(extract_query_param(url, "code"), Some("abc".to_string()));
}

#[test]
fn query_param_returns_empty_string_for_bare_key() {
    let url = "http://127.0.0.1/?code=";
    assert_eq!(extract_query_param(url, "code"), Some(String::new()));
}

#[test]
fn query_param_decodes_trailing_percent_escape() {
    let url = "http://127.0.0.1/?code=ab%41";
    assert_eq!(extract_query_param(url, "code"), Some("abA".to_string()));
}

#[test]
fn query_param_rejects_truncated_percent_escape() {
    let url = "http://127.0.0.1/?code=%4";
    assert_eq!(extract_query_param(url, "code"), None);
}

#[test]
fn query_param_rejects_non_hex_escape() {
    let url = "http://127.0.0.1/?code=%ZZ";
    assert_eq!(extract_query_param(url, "code"), None);
}

#[test]
fn query_param_edge_cases() {
    assert_eq!(extract_query_param("/no-query", "a"), None);
    assert_eq!(extract_query_param("/?a&b=2", "a"), Some(String::new()));
    assert_eq!(extract_query_param("/?x=1&b=2", "b"), Some("2".to_string()));
    assert_eq!(extract_query_param("/?b=1=2", "b"), Some("1=2".to_string()));
    assert_eq!(extract_query_param("/?a=1?b=2", "b"), None);
    assert_eq!(extract_query_param("/?a=%C3%A9", "a"), Some("é".to_string()));
    assert_eq!(extract_query_param("/?a=%FF", "a"), None);
}

#[test]
fn url_decode_needs_two_hex_digits_after_percent() {
    assert_eq!(url_decode("%+A"), None);
    assert_eq!(url_decode("%+1"), None);
    assert_eq!(url_decode("%-1"), None);
    assert_eq!(url_decode("%4a%4A"), Some("JJ".to_string()));
}

#[test]
fn url_decode_undoes_percent_encode() {
    for s in ["", "a b+c&d=e", "{\"k\":\"v\"}", "ünïcödé \u{1d54f}", "-._~"] {
        assert_eq!(url_decode(&percent_encode(s)), Some(s.to_string()));
    }
}

#[test]
fn percent_encode_example() {
    assert_eq!(percent_encode("http://127.0.0.1:80"), "http%3A%2F%2F127.0.0.1%3A80");
}

// ── jwt_extract_field ───────────────────────────────────────────────

fn fake_jwt(payload_json: &str) -> String {
    let header = "eyJhbGciOiJIUzI1NiJ9"; // {"alg":"HS256"}
    let payload = base64::engine::general_purpose::URL_SAFE_NO_PAD.encode(payload_json);
    format!("{header}.{payload}.signature")
}

#[test]
fn jwt_extracts_user_api_url() {
    let token =
        fake_jwt(r#"{"sub":"1234","user_api_url":"https://shelly-96-eu.shelly.cloud"}"#);
    assert_eq!(
        jwt_extract_field(&token, "user_api_url"),
        Some("https://shelly-96-eu.shelly.cloud".to_string())
    );
}

#[test]
fn jwt_returns_none_for_missing_field() {
    let token = fake_jwt(r#"{"sub":"1234"}"#);
    assert_eq!(jwt_extract_field(&token, "user_api_url"), None);
}

#[test]
fn jwt_returns_none_for_malformed_token() {
    assert_eq!(jwt_extract_field("onlyone", "user_api_url"), None);
}

#[test]
fn jwt_returns_none_for_invalid_base64() {
    assert_eq!(jwt_extract_field("h.!!!.s", "user_api_url"), None);
}

#[test]
fn jwt_handles_url_safe_chars_in_payload() {
    let payload_bytes = [
        0u8, 0xFB, 0xFF, b'{', b'"', b'a', b'"', b':', b'"', b'b', b'"', b'}',
    ];
    let payload = base64::engine::general_purpose::URL_SAFE_NO_PAD.encode(payload_bytes);
    let token = format!("h.{payload}.s");
    assert_eq!(jwt_extract_field(&token, "a"), None);
}

#[test]
fn jwt_payload_without_signature() {
    let payload = base64::engine::general_purpose::URL_SAFE_NO_PAD.encode(r#"{"a":"b"}"#);
    assert_eq!(jwt_extract_field(&format!("h.{payload}"), "a"), Some("b".to_string()));
}

#[test]
fn jwt_payload_field_reads_decoded_bytes() {
    assert_eq!(jwt_payload_field(br#"{"a":"b"}"#, "a"), Some("b".to_string()));
    assert_eq!(jwt_payload_field(&[0xff, b'{'], "a"), None);
}

// ── logging in ───────────────────────────────────────────────────────

#[test]
fn login_credentials_normalize_server() {
    assert_eq!(
        login_credentials("  shelly-96-eu.shelly.cloud/ \n", " key \n"),
        Some(("https://shelly-96-eu.shelly.cloud".to_string(), "key".to_string()))
    );
    assert_eq!(
        login_credentials("http://ex.com", "k"),
        Some(("https://ex.com".to_string(), "k".to_string()))
    );
    assert_eq!(
        login_credentials("https://ex.com//", "k"),
        Some(("https://ex.com".to_string(), "k".to_string()))
    );
    assert_eq!(login_credentials(" \n", "k"), None);
    assert_eq!(login_credentials("ex.com", "\t"), None);
}

#[test]
fn oauth_urls() {
    let redirect = redirect_uri(54321);
    assert_eq!(redirect, "http://127.0.0.1:54321");
    assert_eq!(
        authorize_url(&redirect),
        "https://my.shelly.cloud/oauth_login.html?client_id=shelly-diy&redirect_uri=http%3A%2F%2F127.0.0.1%3A54321"
    );
}

#[test]
fn callback_classification() {
    assert!(matches!(
        classify_callback("GET /?code=abc%20d HTTP/1.1\r\nHost: x\r\n\r\n"),
        CallbackRequest::Code(c) if c == "abc d"
    ));
    assert!(matches!(
        classify_callback("GET /favicon.ico HTTP/1.1\r\n\r\n"),
        CallbackRequest::MissingCode
    ));
    assert!(matches!(
        classify_callback("POST /?code=x HTTP/1.1\r\n"),
        CallbackRequest::NotOAuth
    ));
    assert!(matches!(classify_callback(""), CallbackRequest::NotOAuth));
    assert!(matches!(
        classify_callback("GET /?code=%zz HTTP/1.1"),
        CallbackRequest::MissingCode
    ));
}

#[test]
fn kvs_body_reads_back_with_key_lookup() {
    let server = "https://a\"b/\\";
    let key = "\"k\":\"x\"";
    let body = build_kvs_body(server, key, &[1, 2, 3, 4]);
    let inner = json_extract_string(&body, "value").unwrap();
    assert_eq!(json_extract_string(&inner, "u"), Some(server.to_string()));
    assert_eq!(json_extract_string(&inner, "k"), Some(key.to_string()));
}

#[test]
fn cloud_client_and_config_agree_on_server() {
    for server in ["https://ex.com", "https://ex.com///", "https://é/", "/"] {
        let client = CloudClient::new((), server, "k");
        assert_eq!(client.server(), normalize_server_uri(server));
    }
}

#[test]
fn text_and_buffer_escapers_agree() {
    for s in ["plain", "q\"uo\\te\n\r\t", "ünïcödé \u{1d54f}", ""] {
        let mut buf = [0u8; 128];
        let n = shelly_rpc::util::json_escape_into(&mut buf, s.as_bytes()).unwrap();
        assert_eq!(json_escape(s).as_bytes(), &buf[..n]);
    }
}

#[test]
fn extract_reads_back_an_escaped_member() {
    for (key, v) in [("k", "plain"), ("server", "q\"uo\\te\n\r\t"), ("x y", "ünï \u{1d54f}"), ("", "")] {
        let json = format!("{{\"{key}\":\"{}\"}}", json_escape(v));
        assert_eq!(json_extract_string(&json, key), Some(v.to_string()));
    }
}
