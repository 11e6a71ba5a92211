use adbs::text::{chars_of, find, join, lines, same, split, trim, white_space};

#[test]
fn white_space_is_unicodes() {
    let mut n: u32 = 0;
    while n <= 0x10ffff {
        if let Some(c) = char::from_u32(n) {
            assert_eq!(white_space(c), c.is_whitespace(), "{:?}", c);
        }
        n += 1;
    }
}

fn samples() -> Vec<String> {
    let alphabet = ['a', ' ', '\n', '\r', ':', '\u{a0}', 'é'];
    let mut all = vec![String::new()];
    let mut from = 0;
    for _ in 0..4 {
        let to = all.len();
        for i in from..to {
            for c in alphabet {
                let mut s = all[i].clone();
                s.push(c);
                all.push(s);
            }
        }
        from = to;
    }
    all
}

#[test]
fn text_operations_agree_with_strings() {
    for s in samples() {
        assert_eq!(trim(&s), s.trim());
        assert_eq!(split(&s, ':'), s.split(':').collect::<Vec<_>>());
        assert_eq!(lines(&s), s.lines().collect::<Vec<_>>(), "{:?}", s);
        assert_eq!(chars_of(&s), s.chars().collect::<Vec<_>>());
        assert_eq!(find(&s, 'a'), s.chars().position(|c| c == 'a'));
        assert_eq!(same(&s, " a"), s == " a");
    }
}

#[test]
fn trimming_twice_is_trimming_once() {
    assert_eq!(trim("\u{2003}\t x y \r\n"), "x y");
    assert_eq!(trim(trim("\u{2003}\t x y \r\n")), "x y");
    assert_eq!(trim(" \n "), "");
}

#[test]
fn a_split_text_joins_again() {
    let parts: Vec<String> = split("a::b:", ':').iter().map(|p| p.to_string()).collect();
    assert_eq!(parts, ["a", "", "b", ""]);
    assert_eq!(join(&parts, ":"), "a::b:");
    assert_eq!(join(&Vec::new(), ":"), "");
}

#[test]
fn lines_end_with_or_without_a_carriage_return() {
    assert_eq!(lines("foo\r\nbar\n\nbaz\r"), ["foo", "bar", "", "baz\r"]);
    assert_eq!(lines("foo\nbar\n"), ["foo", "bar"]);
    assert_eq!(lines(""), Vec::<&str>::new());
}
