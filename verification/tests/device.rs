use adbs::device::{
    check_users, get_device_info, get_device_users, name_args, name_from_text, props_args,
    property_from_text, users_args, users_from_text, CommandOutput, DeviceError, DeviceInfo,
};

fn output(success: bool, stdout: &str) -> CommandOutput {
    CommandOutput { success, stdout: stdout.as_bytes().to_vec() }
}

const TWO_USERS: &str = "Users:\n\tUserInfo{0:Owner:c13} running\n\tUserInfo{10: Work :30}\n";

#[test]
fn two_users_are_listed() {
    assert!(check_users(TWO_USERS));
    assert_eq!(users_from_text(TWO_USERS), Some("Users: 0 (Owner), 10 (Work)".to_string()));
}

#[test]
fn one_user_is_not_worth_a_line() {
    assert_eq!(users_from_text("Users:\r\n\tUserInfo{0:Owner:c13} running\r\n"), None);
    assert_eq!(users_from_text(""), None);
}

#[test]
fn lines_without_two_fields_are_passed_over() {
    let text = "{0}\n{1:a}\n{}\nnothing\n{2:b:\n3:c}\n{4:d:e:f} {5:g}";
    assert!(check_users(text));
    assert_eq!(users_from_text(text), Some("Users: 1 (a), 4 (d)".to_string()));
}

#[test]
fn users_need_a_command_that_succeeds() {
    assert_eq!(get_device_users(None), Ok(None));
    assert_eq!(get_device_users(Some(&output(false, TWO_USERS))), Ok(None));
    assert_eq!(
        get_device_users(Some(&output(true, TWO_USERS))),
        Ok(Some("Users: 0 (Owner), 10 (Work)".to_string()))
    );
}

#[test]
fn reversed_braces_are_an_error() {
    let text = "{0:a}\n}1:b{\n";
    assert!(!check_users(text));
    assert_eq!(get_device_users(Some(&output(true, text))), Err(DeviceError::BracesReversed));
    assert_eq!(get_device_users(Some(&output(false, text))), Ok(None));
    assert!(get_device_info("s", None, None, Some(&output(true, text))).is_err());
}

#[test]
fn the_name_falls_back_to_the_serial() {
    assert_eq!(name_from_text("s1", " Pixel 7\n"), "Pixel 7");
    assert_eq!(name_from_text("s1", "null\n"), "s1");
    assert_eq!(name_from_text("s1", " \n"), "s1");
    assert_eq!(name_from_text("s1", "nullify"), "nullify");
}

#[test]
fn missing_properties_are_unknown() {
    assert_eq!(property_from_text("a/b/c\r\n14 \n34\n", 0), "a/b/c");
    assert_eq!(property_from_text("a/b/c\r\n14 \n34\n", 1), "14");
    assert_eq!(property_from_text("a/b/c\r\n14 \n34\n", 2), "34");
    assert_eq!(property_from_text("a/b/c\r\n14 \n34\n", 3), "Unknown");
    assert_eq!(property_from_text("", 0), "");
    assert_eq!(property_from_text("", 1), "Unknown");
}

fn fields(d: &DeviceInfo) -> Vec<&str> {
    vec![&d.serial, &d.name, &d.fingerprint, &d.release, &d.sdk]
}

#[test]
fn a_device_is_read_from_three_outputs() {
    let info = get_device_info(
        "s1",
        Some(&output(true, "Pixel\n")),
        Some(&output(false, "f\n14\n34\n")),
        Some(&output(true, TWO_USERS)),
    )
    .unwrap();
    assert_eq!(fields(&info), ["s1", "Pixel", "f", "14", "34"]);
    assert_eq!(info.users, Some("Users: 0 (Owner), 10 (Work)".to_string()));
    assert!(!info.loading);
}

#[test]
fn a_device_is_known_without_any_output() {
    let info = get_device_info("s1", None, None, None).unwrap();
    assert_eq!(
        fields(&info),
        ["s1", "s1", "Could not retrieve properties", "Unknown", "Unknown"]
    );
    assert_eq!(info.users, None);
    assert!(!info.loading);
}

#[test]
fn bytes_that_are_not_text_are_replaced() {
    let name = CommandOutput { success: true, stdout: vec![b'P', 0xff, b'x', b'\n'] };
    let info = get_device_info("s1", Some(&name), None, None).unwrap();
    assert_eq!(info.name, "P\u{fffd}x");
}

#[test]
fn an_announced_device_is_loading() {
    let info = DeviceInfo::announced(&"s1".to_string());
    assert_eq!(fields(&info), ["s1", "s1", "", "", ""]);
    assert_eq!(info.users, None);
    assert!(info.loading);
}

#[test]
fn the_commands_address_the_device() {
    assert_eq!(
        name_args("s1"),
        ["-s", "s1", "shell", "settings", "get", "global", "device_name"]
    );
    assert_eq!(
        props_args("s1"),
        [
            "-s",
            "s1",
            "shell",
            "getprop ro.product.build.fingerprint && getprop ro.build.version.release && getprop ro.build.version.sdk"
        ]
    );
    assert_eq!(users_args("s1"), ["-s", "s1", "shell", "pm list users"]);
}

#[test]
fn a_user_list_is_read_back() {
    let text = "Users:\n{0:Owner}\r\n\tUserInfo{10:Work:30:x} running\n-- {11: Guest } --\n";
    assert!(check_users(text));
    assert_eq!(
        users_from_text(text),
        Some("Users: 0 (Owner), 10 (Work), 11 (Guest)".to_string())
    );
}

#[test]
fn text_beyond_ascii_is_taken_as_it_stands() {
    let info = get_device_info(
        "s1",
        Some(&output(true, "Jörgs Gerät 越\n")),
        Some(&output(true, "é\n14\n34\n")),
        Some(&output(true, "{0:Jörg:1}\n{1:越:2}\n")),
    )
    .unwrap();
    assert_eq!(info.name, "Jörgs Gerät 越");
    assert_eq!(info.fingerprint, "é");
    assert_eq!(info.users, Some("Users: 0 (Jörg), 1 (越)".to_string()));
}
