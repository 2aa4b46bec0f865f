use shelly_rpc::cloud::{
    cloud_envelope, form_body, notification_scene_script, CloudClient, MAX_URL_LEN,
    SCENE_DELETE, SCENE_MANUAL_RUN,
};
use shelly_rpc::Error;

/// Transport stand-in; the request builders never use it.
struct NoHttp;

#[test]
fn form_body_single_param() {
    let mut buf = [0u8; 128];
    let n = form_body(&mut buf, &[("auth_key", "abc123")]).unwrap();
    assert_eq!(core::str::from_utf8(&buf[..n]).unwrap(), "auth_key=abc123");
}

#[test]
fn form_body_multiple_params() {
    let mut buf = [0u8; 128];
    let n = form_body(&mut buf, &[("a", "1"), ("b", "2")]).unwrap();
    assert_eq!(core::str::from_utf8(&buf[..n]).unwrap(), "a=1&b=2");
}

#[test]
fn form_body_special_chars() {
    let mut buf = [0u8; 128];
    let n = form_body(&mut buf, &[("key", "hello world&more=yes")]).unwrap();
    assert_eq!(
        core::str::from_utf8(&buf[..n]).unwrap(),
        "key=hello%20world%26more%3Dyes"
    );
}

#[test]
fn form_body_empty() {
    let mut buf = [0u8; 64];
    let n = form_body(&mut buf, &[]).unwrap();
    assert_eq!(n, 0);
}

#[test]
fn scene_script_matches_expected_format() {
    let mut buf = [0u8; 512];
    let n = notification_scene_script(&mut buf, "Test Scene", "Hello!").unwrap();
    let json = core::str::from_utf8(&buf[..n]).unwrap();

    let expected = [
        r#"{"_enabled":true,"_run_on_ingest":true,"#,
        r#""_meta":{"name":"Test Scene","image":"images/room_def/bedroom_img_def_m.jpg","integrations":false,"room":0,"roomn":"Global","position":0,"backgroundColor":""},"#,
        r#""if":{"or":[{"and":[]}]},"#,
        r#""do":[{"notify":"push_notification","_gui_type":"notification","msg":"Hello!","_gui_function":"push","msg_type":"push"}]}"#,
    ]
    .concat();
    assert_eq!(json, expected);
}

#[test]
fn scene_script_escapes_quotes() {
    let mut buf = [0u8; 512];
    let n = notification_scene_script(&mut buf, "say \"hi\"", "it's \"done\"").unwrap();
    let json = core::str::from_utf8(&buf[..n]).unwrap();
    assert!(json.contains(r#""name":"say \"hi\"""#));
    assert!(json.contains(r#""msg":"it's \"done\"""#));
}

#[test]
fn scene_script_with_control_bytes_is_valid_json() {
    let mut buf = [0u8; 512];
    let n = notification_scene_script(&mut buf, "a\u{1}b", "line\u{7}\nend").unwrap();
    let v: serde_json::Value = serde_json::from_slice(&buf[..n]).unwrap();
    assert_eq!(v["_meta"]["name"], "a\u{1}b");
    assert_eq!(v["do"][0]["msg"], "line\u{7}\nend");
}

/// The `isok` flag and `data` member of a cloud reply, as the envelope
/// parser hands them on.
fn envelope_fields(json: &[u8]) -> (bool, Option<serde_json::Value>) {
    let v: serde_json::Value = serde_json::from_slice(json).unwrap();
    let isok = v["isok"].as_bool().unwrap();
    (isok, v.get("data").cloned())
}

#[test]
fn parse_response_isok_false() {
    let json = br#"{"isok":false,"errors":{"max_req":"Request limit reached!"}}"#;
    let (isok, data) = envelope_fields(json);
    let err = cloud_envelope(isok, data);
    assert!(matches!(err, Err(Error::CloudApi)));
}

#[test]
fn parse_response_missing_data() {
    let json = br#"{"isok":true}"#;
    let (isok, data) = envelope_fields(json);
    let err = cloud_envelope(isok, data);
    assert!(matches!(err, Err(Error::Parse)));
}

#[test]
fn cloud_envelope_hands_back_data() {
    assert_eq!(cloud_envelope(true, Some(42u64)), Ok(42));
}

#[test]
fn cloud_client_strips_trailing_slash() {
    let client = CloudClient::new(NoHttp, "https://example.com/", "k");
    let mut buf = [0u8; MAX_URL_LEN];
    let url = client.build_url(SCENE_MANUAL_RUN, &mut buf).unwrap();
    assert_eq!(url, "https://example.com/scene/manual_run");
}

#[test]
fn cloud_client_preserves_bare_server() {
    let client = CloudClient::new(NoHttp, "https://example.com", "k");
    let mut buf = [0u8; MAX_URL_LEN];
    let url = client.build_url(SCENE_MANUAL_RUN, &mut buf).unwrap();
    assert_eq!(url, "https://example.com/scene/manual_run");
}

#[test]
fn cloud_client_strips_all_trailing_slashes() {
    let client = CloudClient::new(NoHttp, "https://example.com//", "k");
    let mut buf = [0u8; MAX_URL_LEN];
    let url = client.build_url(SCENE_MANUAL_RUN, &mut buf).unwrap();
    assert_eq!(url, "https://example.com/scene/manual_run");
}

#[test]
fn cloud_client_url_too_long_for_buffer() {
    let client = CloudClient::new(NoHttp, "https://example.com", "k");
    let mut buf = [0u8; 8];
    assert_eq!(
        client.build_url(SCENE_DELETE, &mut buf).err(),
        Some(Error::BufferTooSmall)
    );
}

#[test]
fn cloud_client_keeps_auth_key() {
    let client = CloudClient::new(NoHttp, "https://example.com/", "secret");
    assert_eq!(client.server(), "https://example.com");
    assert_eq!(client.auth_key(), "secret");
}

#[test]
fn cloud_client_scene_id_form() {
    let client = CloudClient::new(NoHttp, "https://example.com", "a b");
    let mut buf = [0u8; 64];
    let n = client.scene_id_form("7", &mut buf).unwrap();
    assert_eq!(core::str::from_utf8(&buf[..n]).unwrap(), "auth_key=a%20b&id=7");
}

#[test]
fn cloud_client_auth_form() {
    let client = CloudClient::new(NoHttp, "https://example.com", "k&1");
    let mut buf = [0u8; 64];
    let n = client.auth_form(&mut buf).unwrap();
    assert_eq!(core::str::from_utf8(&buf[..n]).unwrap(), "auth_key=k%261");
}

#[test]
fn cloud_client_scene_add_form_encodes_script() {
    let client = CloudClient::new(NoHttp, "https://example.com", "k");
    let mut buf = [0u8; 2048];
    let n = client.scene_add_form("N", "M", &mut buf).unwrap();
    let form = core::str::from_utf8(&buf[..n]).unwrap();
    assert!(form.starts_with("auth_key=k&name=N&scene_script=%7B%22_enabled%22%3Atrue"));
}

#[test]
fn scene_script_too_long_is_buffer_error() {
    let mut buf = [0u8; 16];
    assert_eq!(
        notification_scene_script(&mut buf, "a", "b"),
        Err(Error::BufferTooSmall)
    );
}

#[test]
fn form_body_reads_back_as_its_fields() {
    let params = [("auth_key", "a&b=c d"), ("name", "ünï+%"), ("empty", "")];
    let mut buf = [0u8; 256];
    let n = form_body(&mut buf, &params).unwrap();
    let body = core::str::from_utf8(&buf[..n]).unwrap();
    let back: Vec<(String, String)> = body
        .split('&')
        .map(|field| {
            let mut kv = field.splitn(2, '=');
            let k = shelly_rpc::login::url_decode(kv.next().unwrap()).unwrap();
            let v = shelly_rpc::login::url_decode(kv.next().unwrap_or("")).unwrap();
            (k, v)
        })
        .collect();
    let want: Vec<(String, String)> =
        params.iter().map(|(k, v)| (k.to_string(), v.to_string())).collect();
    assert_eq!(back, want);
}
