use adbs::device::DeviceInfo;
use adbs::picker::{AppEvent, AppState, Key, KeyPress, Picker, Step};

fn key(key: Key) -> KeyPress {
    KeyPress { key, control: false }
}

fn names(serials: &[&str]) -> Vec<String> {
    serials.iter().map(|s| s.to_string()).collect()
}

fn listed(p: &Picker) -> Vec<&str> {
    p.devices.iter().map(|d| d.serial.as_str()).collect()
}

fn picker(serials: &[&str]) -> Picker {
    let mut p = Picker::new();
    p.announce(&names(serials));
    p
}

fn exit(step: Step) -> Option<Option<String>> {
    match step {
        Step::Exit(serial) => Some(serial),
        _ => None,
    }
}

fn answer(serial: &str, name: &str) -> DeviceInfo {
    let mut info = DeviceInfo::announced(&serial.to_string());
    info.name = name.to_string();
    info
}

const CURRENT: Option<&str> = Some("in-use");

fn current() -> Option<String> {
    CURRENT.map(|s| s.to_string())
}

#[test]
fn it_starts_empty_at_the_first_place() {
    let p = Picker::new();
    assert!(p.devices.is_empty() && p.active_serials.is_empty());
    assert_eq!(p.selected, Some(0));
    assert!(matches!(p.state, AppState::SelectingDevice));
}

#[test]
fn announced_devices_are_listed_once_and_looked_up() {
    let mut p = Picker::new();
    match p.handle(AppEvent::NewDevices(names(&["a", "b", "a"])), None) {
        Step::LookUp(serials) => assert_eq!(serials, ["a", "b"]),
        _ => panic!("nothing to look up"),
    }
    assert_eq!(listed(&p), ["a", "b"]);
    assert_eq!(p.active_serials, ["a", "b"]);
    assert_eq!(p.selected, Some(0));
    assert!(p.devices.iter().all(|d| d.loading));
}

#[test]
fn staying_devices_keep_their_place_and_entry() {
    let mut p = picker(&["a", "b", "c"]);
    p.resolve(&"c".to_string(), answer("c", "Cee"));
    assert_eq!(p.announce(&names(&["d", "c", "a"])), ["d"]);
    assert_eq!(listed(&p), ["a", "c", "d"]);
    assert_eq!(p.active_serials, ["a", "c", "d"]);
    assert_eq!(p.devices[1].name, "Cee");
    assert!(!p.devices[1].loading);
}

#[test]
fn the_same_announcement_changes_nothing() {
    let mut p = picker(&["a", "b"]);
    p.resolve(&"a".to_string(), answer("a", "Ay"));
    p.selected = Some(1);
    assert_eq!(p.announce(&names(&["b", "a"])), Vec::<String>::new());
    assert_eq!(p.announce(&names(&["b", "a"])), Vec::<String>::new());
    assert_eq!(listed(&p), ["a", "b"]);
    assert_eq!(p.devices[0].name, "Ay");
    assert_eq!(p.selected, Some(1));
}

#[test]
fn the_selection_stays_in_the_list() {
    let mut p = picker(&["a", "b", "c"]);
    p.selected = Some(2);
    p.announce(&names(&["a"]));
    assert_eq!(p.selected, Some(0));
    p.announce(&names(&[]));
    assert_eq!(p.selected, None);
    p.announce(&names(&["x", "y"]));
    assert_eq!(p.selected, Some(0));
}

#[test]
fn up_and_down_go_round() {
    let mut p = picker(&["a", "b", "c"]);
    let mut seen = Vec::new();
    for k in [Key::Up, Key::Char('k'), Key::Down, Key::Char('j'), Key::Down] {
        assert!(matches!(p.press(key(k), None), Step::Wait));
        seen.push(p.selected.unwrap());
    }
    assert_eq!(seen, [2, 1, 2, 0, 1]);
}

#[test]
fn moving_in_an_empty_list_stays_at_the_first_place() {
    let mut p = Picker::new();
    for k in [Key::Up, Key::Down] {
        p.press(key(k), None);
        assert_eq!(p.selected, Some(0));
        p.selected = None;
        p.press(key(k), None);
        assert_eq!(p.selected, Some(0));
    }
}

#[test]
fn enter_takes_the_selected_device() {
    let mut p = picker(&["a", "b"]);
    p.press(key(Key::Down), None);
    assert_eq!(exit(p.press(key(Key::Enter), current())), Some(Some("b".to_string())));
    let mut none = Picker::new();
    assert!(matches!(none.press(key(Key::Enter), None), Step::Wait));
    none.selected = None;
    assert!(matches!(none.press(key(Key::Enter), None), Step::Wait));
}

#[test]
fn leaving_without_a_serial_prints_none() {
    for press in [
        key(Key::Esc),
        key(Key::Char('q')),
        KeyPress { key: Key::Char('c'), control: true },
    ] {
        let mut p = picker(&["a"]);
        assert_eq!(exit(p.press(press, None)), Some(None));
    }
    let mut p = picker(&["a"]);
    assert!(matches!(p.press(key(Key::Char('c')), None), Step::Wait));
    assert!(matches!(p.press(key(Key::Left), None), Step::Wait));
    assert!(matches!(p.press(key(Key::Other), None), Step::Wait));
}

#[test]
fn leaving_twice_keeps_the_serial() {
    let quits = [
        key(Key::Esc),
        key(Key::Char('q')),
        KeyPress { key: Key::Char('c'), control: true },
    ];
    for first in quits {
        for second in [quits[0], quits[1], quits[2], key(Key::Enter)] {
            let mut p = picker(&["a"]);
            assert!(matches!(p.press(first, current()), Step::Wait));
            match &p.state {
                AppState::ConfirmAbort { current_serial, selected_option } => {
                    assert_eq!(current_serial.as_deref(), CURRENT);
                    assert_eq!(*selected_option, 0);
                }
                _ => panic!("no question"),
            }
            assert_eq!(exit(p.press(second, None)), Some(current()));
        }
    }
}

#[test]
fn the_other_answer_clears_the_serial() {
    for k in [
        Key::Up,
        Key::Down,
        Key::Left,
        Key::Right,
        Key::Char('h'),
        Key::Char('j'),
        Key::Char('k'),
        Key::Char('l'),
    ] {
        let mut p = Picker::new();
        p.press(key(Key::Esc), current());
        assert!(matches!(p.press(key(k), None), Step::Wait));
        assert_eq!(exit(p.press(key(Key::Enter), None)), Some(Some("__CLEAR__".to_string())));
        p.press(key(k), None);
        assert_eq!(exit(p.press(key(Key::Enter), None)), Some(current()));
        p.press(key(k), None);
        assert_eq!(exit(p.press(key(Key::Esc), None)), Some(current()));
    }
}

#[test]
fn other_keys_leave_the_question_open() {
    let mut p = Picker::new();
    p.press(key(Key::Esc), current());
    for k in [Key::Char('c'), Key::Char('x'), Key::Other] {
        assert!(matches!(p.press(key(k), None), Step::Wait));
        assert!(matches!(p.state, AppState::ConfirmAbort { selected_option: 0, .. }));
    }
}

#[test]
fn answers_are_shown_or_dropped() {
    let mut p = picker(&["a", "b"]);
    let step = p.handle(AppEvent::ResolvedInfo("b".to_string(), answer("b", "Bee")), None);
    assert!(matches!(step, Step::Wait));
    assert_eq!(p.devices[1].name, "Bee");
    assert!(!p.devices[1].loading);
    p.announce(&names(&["a"]));
    p.handle(AppEvent::ResolvedInfo("b".to_string(), answer("b", "Bee")), None);
    assert_eq!(listed(&p), ["a"]);
    assert!(p.devices[0].loading);
}

#[test]
fn news_come_in_behind_the_question() {
    let mut p = Picker::new();
    p.press(key(Key::Esc), current());
    p.handle(AppEvent::NewDevices(names(&["a"])), None);
    assert_eq!(listed(&p), ["a"]);
    assert!(matches!(p.state, AppState::ConfirmAbort { .. }));
}
