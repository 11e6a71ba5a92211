use adbs::device::DeviceInfo;
use adbs::screen::{abort_description, clear_style, device_item, keep_style, Color, Line, Style};

fn texts(lines: &[Line]) -> Vec<String> {
    lines.iter().map(|l| l.spans.iter().map(|s| s.text.as_str()).collect::<String>()).collect()
}

fn device(users: Option<&str>) -> DeviceInfo {
    DeviceInfo {
        serial: "s1".to_string(),
        name: "Pixel".to_string(),
        fingerprint: "f".to_string(),
        release: "14".to_string(),
        sdk: "34".to_string(),
        users: users.map(|u| u.to_string()),
        loading: false,
    }
}

fn style(fg: Color) -> Style {
    Style { fg: Some(fg), bg: None, bold: false, italic: false }
}

const RULE: &str = "    ----------------------------------------";

#[test]
fn an_entry_shows_the_properties() {
    let item = device_item(&device(Some("Users: 0 (a), 1 (b)")));
    assert_eq!(
        texts(&item),
        [
            "Pixel (s1)",
            "    Fingerprint: f",
            "    Android 14 (SDK 34)",
            "    Users: 0 (a), 1 (b)",
            RULE
        ]
    );
    assert_eq!(item[0].spans[0].style, Style { bold: true, ..style(Color::Cyan) });
    assert_eq!(item[0].spans[1].style, Style { fg: None, bg: None, bold: false, italic: false });
    assert_eq!(item[0].spans[2].style, style(Color::Green));
    assert_eq!(item[1].spans[0].style, style(Color::LightBlue));
    assert_eq!(item[2].spans[0].style, style(Color::Yellow));
    assert_eq!(item[3].spans[0].style, style(Color::LightMagenta));
    assert_eq!(item[4].spans[0].style, style(Color::DarkGray));
    assert_eq!(device_item(&device(None)).len(), 4);
}

#[test]
fn an_entry_without_properties_says_so() {
    let item = device_item(&DeviceInfo::announced(&"s1".to_string()));
    assert_eq!(texts(&item), ["s1 (s1)", "    Loading properties...", "", RULE]);
    assert_eq!(item[1].spans[0].style, Style { italic: true, ..style(Color::LightBlue) });
    assert_eq!(item[2].spans.len(), 1);
}

#[test]
fn the_current_serial_is_described() {
    let current = Some("s1".to_string());
    let known = vec![DeviceInfo::announced(&"s0".to_string()), device(Some("Users: u"))];
    assert_eq!(
        texts(&abort_description(&current, &known)),
        ["Pixel (s1)", "  Fingerprint: f", "  Android 14 (SDK 34)", "  Users: u"]
    );
    let loading = vec![DeviceInfo::announced(&"s1".to_string())];
    assert_eq!(
        texts(&abort_description(&current, &loading)),
        ["s1 (s1)", "  Loading properties..."]
    );
    let unknown = abort_description(&current, &Vec::new());
    assert_eq!(texts(&unknown), ["(Serial: s1)"]);
    assert_eq!(unknown[0].spans[0].style, Style { bold: true, ..style(Color::Green) });
    let none = abort_description(&None, &known);
    assert_eq!(texts(&none), ["(None)"]);
    assert_eq!(none[0].spans[0].style, style(Color::DarkGray));
}

#[test]
fn the_chosen_button_is_filled() {
    let filled = |color| Style { fg: Some(Color::White), bg: Some(color), bold: true, italic: false };
    assert_eq!(keep_style(0), filled(Color::Green));
    assert_eq!(clear_style(0), style(Color::Red));
    assert_eq!(keep_style(1), style(Color::Green));
    assert_eq!(clear_style(1), filled(Color::Red));
    assert_eq!((keep_style(2), clear_style(2)), (style(Color::Green), style(Color::Red)));
}
