use shelly_rpc::commands::{
    next_script_step, next_status_step, ScriptStep, StatusStep,
    call_path, device_name, ephemeral_script_name, hex_preview, is_recorded_method,
    record_file_name, record_succeeded, run_state_word, script_list_line, size_ratio_text,
    uptime_text, Discovery,
};
use shelly_rpc::device::{
    base_url, check_http_status, device_base, device_url, is_null_reply, script_create_body, script_put_code_body,
};
use shelly_rpc::rpc::script::ScriptInfo;
use shelly_rpc::text::{i64_to_decimal, u64_to_decimal};
use shelly_rpc::Error;

#[test]
fn base_url_adds_scheme_once() {
    assert_eq!(base_url("192.168.1.50"), "http://192.168.1.50");
    assert_eq!(base_url("http://x"), "http://x");
    assert_eq!(base_url("https://x:8443"), "https://x:8443");
    assert_eq!(base_url("httpx"), "http://httpx");
}

#[test]
fn script_bodies() {
    let mut buf = [0u8; 128];
    let n = script_create_body("my \"s\"", &mut buf).unwrap();
    assert_eq!(&buf[..n], br#"{"name":"my \"s\""}"#);
    let mut buf = [0u8; 64];
    let n = script_put_code_body(7, "a\nb", false, &mut buf).unwrap();
    assert_eq!(&buf[..n], br#"{"id":7,"code":"a\nb"}"#);
    let n = script_put_code_body(4294967295, "", true, &mut buf).unwrap();
    assert_eq!(&buf[..n], br#"{"id":4294967295,"code":"","append":true}"#);
    let mut small = [0u8; 10];
    assert_eq!(
        script_put_code_body(1, "x", false, &mut small),
        Err(Error::BufferTooSmall)
    );
}

#[test]
fn call_paths() {
    assert_eq!(call_path("Shelly.GetStatus"), "/rpc/Shelly.GetStatus");
    assert_eq!(call_path("/debug/log"), "/debug/log");
    assert_eq!(call_path(""), "/rpc/");
}

#[test]
fn hex_preview_is_capped() {
    assert_eq!(hex_preview(&[0x00, 0xab, 0xff]), "00 ab ff");
    assert_eq!(hex_preview(&[]), "");
    let long = [0x11u8; 40];
    let p = hex_preview(&long);
    assert_eq!(p.len(), 32 * 3 - 1);
}

#[test]
fn recorded_methods() {
    assert!(is_recorded_method("Switch.GetStatus"));
    assert!(is_recorded_method("Shelly.CheckForUpdate"));
    assert!(is_recorded_method("Shelly.ListMethods"));
    assert!(!is_recorded_method("Switch.Set"));
    assert!(!is_recorded_method("Status"));
    assert_eq!(record_file_name("Sys.GetConfig"), "Sys.GetConfig.json");
    assert!(record_succeeded(0, 0));
    assert!(record_succeeded(3, 1));
    assert!(!record_succeeded(0, 2));
}

#[test]
fn uptime_hours_and_minutes() {
    assert_eq!(uptime_text(0), "0h 0m");
    assert_eq!(uptime_text(3 * 3600 + 25 * 60 + 59), "3h 25m");
    assert_eq!(uptime_text(u64::MAX), "5124095576030431h 0m");
}

#[test]
fn size_ratio() {
    assert_eq!(size_ratio_text(200, 50), "25%");
    assert_eq!(size_ratio_text(3, 1), "33%");
    assert_eq!(size_ratio_text(0, 0), "n/a");
}

#[test]
fn script_names_and_lines() {
    assert_eq!(ephemeral_script_name(1700000000), "__run_1700000000");
    let s = ScriptInfo { id: 3, name: Some("boiler"), enable: true, running: false };
    assert_eq!(script_list_line(&s), "3\tboiler\tstopped\tauto");
    let s = ScriptInfo { id: 0, name: None, enable: false, running: true };
    assert_eq!(script_list_line(&s), "0\t(unnamed)\trunning\tmanual");
    assert_eq!(run_state_word(true), "running");
    assert_eq!(run_state_word(false), "stopped");
}

#[test]
fn discovery_reports_each_device_once() {
    let mut d = Discovery::new();
    let none: Vec<String> = Vec::new();
    assert_eq!(d.resolved("shelly1-a._shelly._tcp.local.", &none), None);
    let addrs = vec!["10.0.0.2".to_string(), "10.0.0.3".to_string()];
    assert_eq!(
        d.resolved("shelly1-a._shelly._tcp.local.", &addrs),
        Some(("shelly1-a".to_string(), "10.0.0.2,10.0.0.3".to_string()))
    );
    assert_eq!(d.resolved("shelly1-a._shelly._tcp.local.", &addrs), None);
    assert_eq!(
        d.resolved("other", &addrs[..1].to_vec()),
        Some(("other".to_string(), "10.0.0.2".to_string()))
    );
    assert_eq!(d.count(), 2);
    assert_eq!(device_name("x._shelly._tcp.local."), "x");
}

#[test]
fn decimal_rendering() {
    assert_eq!(u64_to_decimal(0), "0");
    assert_eq!(u64_to_decimal(u64::MAX), "18446744073709551615");
    assert_eq!(i64_to_decimal(i64::MIN), "-9223372036854775808");
}

#[test]
fn http_status_two_hundreds_succeed() {
    assert_eq!(check_http_status(200), Ok(()));
    assert_eq!(check_http_status(204), Ok(()));
    assert_eq!(check_http_status(299), Ok(()));
    assert_eq!(check_http_status(199), Err(Error::Http(199)));
    assert_eq!(check_http_status(301), Err(Error::Http(301)));
    assert_eq!(check_http_status(404), Err(Error::Http(404)));
}

#[test]
fn null_reply_is_recognised_exactly() {
    assert!(is_null_reply(b"null"));
    assert!(!is_null_reply(b"null "));
    assert!(!is_null_reply(b"nul"));
    assert!(!is_null_reply(b"Null"));
    assert!(!is_null_reply(b"{\"was_on\":true}"));
}

#[test]
fn device_base_and_url_join_within_capacity() {
    let base = device_base("http://192.168.1.50").unwrap();
    assert_eq!(base.as_str(), "http://192.168.1.50");
    let long = "h".repeat(65);
    assert_eq!(device_base(&long).map(|_| ()), Err(Error::BufferTooSmall));
    assert!(device_base(&long[..64]).is_ok());
    let url = device_url(base.as_str(), "/rpc/Shelly.GetStatus").unwrap();
    assert_eq!(url.as_str(), "http://192.168.1.50/rpc/Shelly.GetStatus");
    let path = "p".repeat(142);
    assert_eq!(device_url(base.as_str(), &path).map(|_| ()), Err(Error::BufferTooSmall));
    assert!(device_url(base.as_str(), &path[..141]).is_ok());
}


fn walk(run: bool, results: &[bool]) -> Vec<ScriptStep> {
    let mut step = ScriptStep::Create;
    let mut seen = vec![step];
    for &ok in results {
        step = next_script_step(step, ok, run);
        seen.push(step);
    }
    seen
}

#[test]
fn run_once_script_is_started_streamed_stopped_and_deleted() {
    assert_eq!(
        walk(true, &[true, true, true, true, false, false]),
        vec![ScriptStep::Create, ScriptStep::Upload, ScriptStep::Start, ScriptStep::StreamLogs, ScriptStep::Stop, ScriptStep::Delete { failed: false }, ScriptStep::Exit { success: true }]
    );
    assert_eq!(walk(true, &[false]), vec![ScriptStep::Create, ScriptStep::Exit { success: false }]);
    assert_eq!(
        walk(true, &[true, false, true]),
        vec![ScriptStep::Create, ScriptStep::Upload, ScriptStep::Delete { failed: true }, ScriptStep::Exit { success: false }]
    );
    assert_eq!(
        walk(true, &[true, true, false, false]),
        vec![ScriptStep::Create, ScriptStep::Upload, ScriptStep::Start, ScriptStep::Delete { failed: true }, ScriptStep::Exit { success: false }]
    );
}

#[test]
fn uploaded_script_is_kept_or_its_orphan_slot_deleted() {
    assert_eq!(walk(false, &[true, true]), vec![ScriptStep::Create, ScriptStep::Upload, ScriptStep::Exit { success: true }]);
    assert_eq!(
        walk(false, &[true, false, false]),
        vec![ScriptStep::Create, ScriptStep::Upload, ScriptStep::Delete { failed: true }, ScriptStep::Exit { success: false }]
    );
}

#[test]
fn status_needs_device_info_and_only_warns_on_full_status() {
    assert_eq!(next_status_step(StatusStep::DeviceInfo, false), StatusStep::Exit { success: false });
    assert_eq!(next_status_step(StatusStep::DeviceInfo, true), StatusStep::FullStatus);
    assert_eq!(next_status_step(StatusStep::FullStatus, false), StatusStep::Exit { success: true });
    assert_eq!(next_status_step(StatusStep::FullStatus, true), StatusStep::Exit { success: true });
}
