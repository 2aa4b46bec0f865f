use shelly_rpc::rpc::{self, check_rpc_reply, cover, input, light, script, sensors, shelly, switch, sys, wifi};
use shelly_rpc::Error;

#[test]
fn cover_parameterised_paths() {
    assert_eq!(
        cover::get_status_path(0).unwrap().as_str(),
        "/rpc/Cover.GetStatus?id=0"
    );
    assert_eq!(cover::open_path(0).unwrap().as_str(), "/rpc/Cover.Open?id=0");
    assert_eq!(
        cover::go_to_position_path(0, 50).unwrap().as_str(),
        "/rpc/Cover.GoToPosition?id=0&pos=50"
    );
}

#[test]
fn input_parameterised_paths() {
    assert_eq!(
        input::get_status_path(0).unwrap().as_str(),
        "/rpc/Input.GetStatus?id=0"
    );
    assert_eq!(
        input::get_config_path(1).unwrap().as_str(),
        "/rpc/Input.GetConfig?id=1"
    );
}

#[test]
fn light_parameterised_paths() {
    assert_eq!(
        light::get_status_path(0).unwrap().as_str(),
        "/rpc/Light.GetStatus?id=0"
    );
    assert_eq!(
        light::set_brightness_path(0, 75).unwrap().as_str(),
        "/rpc/Light.Set?id=0&on=true&brightness=75"
    );
}

#[test]
fn static_and_parameterised_paths() {
    assert_eq!(script::list_path().as_str(), "/rpc/Script.List");
    assert_eq!(script::start_path(1).unwrap().as_str(), "/rpc/Script.Start?id=1");
    assert_eq!(script::stop_path(2).unwrap().as_str(), "/rpc/Script.Stop?id=2");
    assert_eq!(script::delete_path(3).unwrap().as_str(), "/rpc/Script.Delete?id=3");
}

#[test]
fn sensors_parameterised_paths() {
    assert_eq!(
        sensors::temperature_get_status_path(0).unwrap().as_str(),
        "/rpc/Temperature.GetStatus?id=0"
    );
    assert_eq!(
        sensors::humidity_get_status_path(0).unwrap().as_str(),
        "/rpc/Humidity.GetStatus?id=0"
    );
    assert_eq!(
        sensors::device_power_get_status_path(0).unwrap().as_str(),
        "/rpc/DevicePower.GetStatus?id=0"
    );
    assert_eq!(
        sensors::voltmeter_get_status_path(0).unwrap().as_str(),
        "/rpc/Voltmeter.GetStatus?id=0"
    );
}

#[test]
fn shelly_static_paths() {
    assert_eq!(shelly::get_device_info_path().as_str(), "/rpc/Shelly.GetDeviceInfo");
    assert_eq!(shelly::get_status_path().as_str(), "/rpc/Shelly.GetStatus");
    assert_eq!(shelly::list_methods_path().as_str(), "/rpc/Shelly.ListMethods");
    assert_eq!(shelly::reboot_path().as_str(), "/rpc/Shelly.Reboot");
    assert_eq!(
        shelly::check_for_update_path().as_str(),
        "/rpc/Shelly.CheckForUpdate"
    );
    assert_eq!(shelly::update_path().as_str(), "/rpc/Shelly.Update");
}

#[test]
fn switch_parameterised_paths() {
    assert_eq!(
        switch::get_status_path(0).unwrap().as_str(),
        "/rpc/Switch.GetStatus?id=0"
    );
    assert_eq!(
        switch::set_path(1, true).unwrap().as_str(),
        "/rpc/Switch.Set?id=1&on=true"
    );
    assert_eq!(switch::toggle_path(2).unwrap().as_str(), "/rpc/Switch.Toggle?id=2");
}

#[test]
fn sys_static_paths() {
    assert_eq!(sys::get_status_path().as_str(), "/rpc/Sys.GetStatus");
    assert_eq!(sys::get_config_path().as_str(), "/rpc/Sys.GetConfig");
}

#[test]
fn wifi_static_paths() {
    assert_eq!(wifi::get_status_path().as_str(), "/rpc/Wifi.GetStatus");
    assert_eq!(wifi::get_config_path().as_str(), "/rpc/Wifi.GetConfig");
    assert_eq!(wifi::scan_path().as_str(), "/rpc/Wifi.Scan");
}

#[test]
fn paths_with_largest_ids() {
    assert_eq!(
        switch::set_path(u32::MAX, false).unwrap().as_str(),
        "/rpc/Switch.Set?id=4294967295&on=false"
    );
    assert_eq!(
        cover::go_to_position_path(u32::MAX, u32::MAX).unwrap().as_str(),
        "/rpc/Cover.GoToPosition?id=4294967295&pos=4294967295"
    );
}

#[test]
fn path_rejects_overflow() {
    let long = "x".repeat(100);
    assert_eq!(rpc::path("/rpc/", &long).err(), Some(Error::BufferTooSmall));
    let p = rpc::path("/rpc/", "Shelly.GetStatus").unwrap();
    assert_eq!(p.as_str(), "/rpc/Shelly.GetStatus");
}

// Reply checks: the error-envelope code is what the envelope parser found.

#[test]
fn accepts_null_body() {
    check_rpc_reply(b"null", None).unwrap();
}

#[test]
fn accepts_empty_object() {
    check_rpc_reply(b"{}", None).unwrap();
}

#[test]
fn accepts_typical_result_body() {
    check_rpc_reply(br#"{"was_on":true}"#, None).unwrap();
}

#[test]
fn rejects_error_envelope() {
    let err = check_rpc_reply(br#"{"code":-103,"message":"resource unavailable"}"#, Some(-103));
    assert!(matches!(err, Err(Error::Rpc(-103))));
}

#[test]
fn ignores_body_with_code_but_no_message() {
    check_rpc_reply(br#"{"code":42}"#, None).unwrap();
}

#[test]
fn rejects_non_json() {
    assert!(matches!(
        check_rpc_reply(b"<html><body>502 Bad Gateway</body></html>", None),
        Err(Error::Parse)
    ));
}

#[test]
fn rejects_empty_body() {
    assert!(matches!(check_rpc_reply(b"", None), Err(Error::Parse)));
}

#[test]
fn rejects_binary_garbage() {
    assert!(matches!(
        check_rpc_reply(&[0xff, 0xfe, 0x00, 0x01], None),
        Err(Error::Parse)
    ));
}

#[test]
fn rejects_number_like_garbage() {
    assert!(matches!(check_rpc_reply(b"-garbage", None), Err(Error::Parse)));
    assert!(matches!(check_rpc_reply(b"12abc", None), Err(Error::Parse)));
}

#[test]
fn rejects_truncated_object() {
    assert!(matches!(check_rpc_reply(b"{invalid", None), Err(Error::Parse)));
}

#[test]
fn rejects_trailing_html_after_object() {
    assert!(matches!(
        check_rpc_reply(br#"{"ok":true}<html>"#, None),
        Err(Error::Parse)
    ));
}

#[test]
fn rejects_trailing_garbage_after_empty_object() {
    assert!(matches!(check_rpc_reply(b"{}garbage", None), Err(Error::Parse)));
}

#[test]
fn accepts_trailing_whitespace_after_object() {
    check_rpc_reply(b"{}  \n", None).unwrap();
}

#[test]
fn accepts_array_body() {
    check_rpc_reply(b"[1,2,3]", None).unwrap();
}

#[test]
fn accepts_bare_string() {
    check_rpc_reply(br#""hi""#, None).unwrap();
}

#[test]
fn accepts_padded_bare_literals() {
    check_rpc_reply(b"  true\n", None).unwrap();
    check_rpc_reply(b"false", None).unwrap();
}

#[test]
fn error_messages() {
    assert_eq!(Error::Transport.message(), "transport error");
    assert_eq!(Error::Parse.message(), "failed to parse device response");
    assert_eq!(Error::BufferTooSmall.message(), "buffer too small");
    assert_eq!(Error::Http(404).message(), "http error: status 404");
    assert_eq!(Error::Rpc(-32601).message(), "rpc error: code -32601");
    assert_eq!(Error::CloudApi.message(), "cloud API returned isok: false");
}
