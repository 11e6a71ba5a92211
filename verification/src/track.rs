//! Reading the stream of `adb track-devices`: frames of a length and a device list.

use vstd::prelude::*;
use vstd::utf8::{
    decode_utf8, encode_utf8, encode_utf8_decode_utf8, encode_utf8_valid_utf8, valid_utf8,
};
use crate::decode::utf8_text;
use crate::text::{
    chars_of, find, is_blank, is_white_space, joined, law_join_splits_again, law_trim_takes_blanks,
    lemma_joined_ends, lemma_position, lemma_position_at, lemma_trimmed_already, position, same,
    split, split_on, str_views, trim, trimmed, trimmed_end, trimmed_start, view_of, views,
};

verus! {

/// The number of bytes in which a frame tells the length of its device list.
pub const LENGTH_SIZE: usize = 4;

/// What the stream is to bring next.
#[derive(Clone, Copy, Debug, PartialEq, Eq, Structural)]
pub enum Awaiting {
    /// The length of a device list.
    Length,
    /// A device list of so many bytes.
    List(usize),
}

/// Why the stream could not be followed.
#[derive(Clone, Copy, Debug, PartialEq, Eq, Structural)]
pub enum TrackError {
    /// The length is not UTF-8.
    LengthNotUtf8,
    /// The length is not a hexadecimal number of machine size.
    LengthNotHex,
    /// The stream ended before the device list was complete.
    ListMissing,
    /// The device list is not UTF-8.
    ListNotUtf8,
}

/// What there is to do after a read.
#[derive(Clone, Debug)]
pub enum TrackStep {
    /// Read on.
    Read(Awaiting),
    /// Announce these serial numbers, then read the length of the next device list.
    Announce(Vec<String>),
    /// The stream has ended between two frames.
    Stop,
    /// The stream cannot be followed.
    Fail(TrackError),
}

/// What a `TrackStep` holds.
pub enum TrackStepView {
    Read(Awaiting),
    Announce(Seq<Seq<char>>),
    Stop,
    Fail(TrackError),
}

impl View for TrackStep {
    type V = TrackStepView;

    open spec fn view(&self) -> TrackStepView {
        match *self {
            TrackStep::Read(awaiting) => TrackStepView::Read(awaiting),
            TrackStep::Announce(serials) => TrackStepView::Announce(views(serials@)),
            TrackStep::Stop => TrackStepView::Stop,
            TrackStep::Fail(error) => TrackStepView::Fail(error),
        }
    }
}

/// The value of a hexadecimal digit of either case.
pub open spec fn digit_of(c: char) -> Option<nat> {
    let n = c as u32;
    if '0' as u32 <= n <= '9' as u32 {
        Some((n - '0' as u32) as nat)
    } else if 'a' as u32 <= n <= 'f' as u32 {
        Some((n - 'a' as u32 + 10) as nat)
    } else if 'A' as u32 <= n <= 'F' as u32 {
        Some((n - 'A' as u32 + 10) as nat)
    } else {
        None
    }
}

/// The digits of a number: all of it, but for a plus sign in front.
pub open spec fn digits_of(s: Seq<char>) -> Seq<char> {
    if s.len() > 0 && s[0] == '+' {
        s.skip(1)
    } else {
        s
    }
}

/// Whether every character is a hexadecimal digit.
pub open spec fn all_digits(s: Seq<char>) -> bool {
    forall|i: int| 0 <= i < s.len() ==> (#[trigger] digit_of(s[i])) is Some
}

/// The value of hexadecimal digits.
pub open spec fn value_of(s: Seq<char>) -> nat
    recommends
        all_digits(s),
    decreases s.len(),
{
    if s.len() == 0 {
        0
    } else {
        value_of(s.drop_last()) * 16 + digit_of(s.last())->0
    }
}

/// The number that `s` writes in hexadecimal, where it fits in a `usize`.
pub open spec fn hex_of(s: Seq<char>) -> Option<nat> {
    let digits = digits_of(s);
    if digits.len() > 0 && all_digits(digits) && value_of(digits) <= usize::MAX {
        Some(value_of(digits))
    } else {
        None
    }
}

/// The serial number in a line of the device list, where its device is ready: the part before the
/// first tab, if the part behind it is `device`.
pub open spec fn ready_serial(line: Seq<char>) -> Option<Seq<char>> {
    let line = trimmed(line);
    match position(line, '\t') {
        Some(i) => if trimmed(line.skip(i + 1)) == "device"@ {
            Some(trimmed(line.take(i)))
        } else {
            None
        },
        None => None,
    }
}

/// The serial numbers of the devices in the list `text` that are ready, in order.
pub open spec fn ready_serials(text: Seq<char>) -> Seq<Seq<char>> {
    split_on(trimmed(text), '\n').filter_map(|line: Seq<char>| ready_serial(line))
}

/// What there is to do after a read, which brought bytes or the end of the stream.
pub open spec fn stepped(awaiting: Awaiting, read: Option<Seq<u8>>) -> TrackStepView {
    match (awaiting, read) {
        (Awaiting::Length, None) => TrackStepView::Stop,
        (Awaiting::Length, Some(bytes)) => if !valid_utf8(bytes) {
            TrackStepView::Fail(TrackError::LengthNotUtf8)
        } else {
            match hex_of(decode_utf8(bytes)) {
                Some(n) => TrackStepView::Read(Awaiting::List(n as usize)),
                None => TrackStepView::Fail(TrackError::LengthNotHex),
            }
        },
        (Awaiting::List(_), None) => TrackStepView::Fail(TrackError::ListMissing),
        (Awaiting::List(_), Some(bytes)) => if valid_utf8(bytes) {
            TrackStepView::Announce(ready_serials(decode_utf8(bytes)))
        } else {
            TrackStepView::Fail(TrackError::ListNotUtf8)
        },
    }
}

/// The value of a hexadecimal digit of either case.
fn digit(c: char) -> (r: Option<usize>)
    ensures
        match r {
            Some(d) => digit_of(c) == Some(d as nat) && d < 16,
            None => digit_of(c) is None,
        },
{
    let n: u32 = c as u32;
    if n >= '0' as u32 && n <= '9' as u32 {
        Some((n - '0' as u32) as usize)
    } else if n >= 'a' as u32 && n <= 'f' as u32 {
        Some((n - 'a' as u32 + 10) as usize)
    } else if n >= 'A' as u32 && n <= 'F' as u32 {
        Some((n - 'A' as u32 + 10) as usize)
    } else {
        None
    }
}

/// More digits do not make a number smaller.
proof fn lemma_value_grows(s: Seq<char>, n: int)
    requires
        0 <= n <= s.len(),
    ensures
        value_of(s.take(n)) <= value_of(s),
    decreases s.len() - n,
{
    if n == s.len() {
        assert(s.take(n) =~= s);
    } else {
        lemma_value_grows(s, n + 1);
        assert(s.take(n + 1).drop_last() =~= s.take(n));
    }
}

/// The number that `s` writes in hexadecimal, with or without a plus sign in front.
pub fn parse_hex(s: &str) -> (r: Option<usize>)
    ensures
        match r {
            Some(v) => hex_of(s@) == Some(v as nat),
            None => hex_of(s@) is None,
        },
{
    let chars = chars_of(s);
    let from: usize = if chars.len() > 0 && chars[0] == '+' {
        1
    } else {
        0
    };
    let ghost digits = digits_of(s@);
    proof {
        assert(digits =~= s@.skip(from as int));
    }
    if from == chars.len() {
        return None;
    }
    let mut value: usize = 0;
    let mut i: usize = from;
    while i < chars.len()
        invariant
            chars@ == s@,
            digits == digits_of(s@),
            digits == s@.skip(from as int),
            from <= i <= chars.len(),
            value == value_of(digits.take(i - from)),
            forall|j: int| 0 <= j < i - from ==> (#[trigger] digit_of(digits[j])) is Some,
        decreases chars.len() - i,
    {
        proof {
            assert(digits[i - from] == chars@[i as int]);
            assert(digits.take(i - from + 1).drop_last() =~= digits.take(i - from));
            assert(digits.take(i - from + 1).last() == chars@[i as int]);
            lemma_value_grows(digits, i - from + 1);
        }
        match digit(chars[i]) {
            Some(d) => {
                if value > (usize::MAX - d) / 16 {
                    return None;
                }
                value = value * 16 + d;
            },
            None => {
                proof {
                    assert(digit_of(digits[i - from]) is None);
                }
                return None;
            },
        }
        i += 1;
    }
    proof {
        assert(digits.take(i - from) =~= digits);
    }
    Some(value)
}

/// The serial number in a line of the device list, where its device is ready.
fn read_line(line: &str) -> (serial: Option<String>)
    ensures
        view_of(serial) == ready_serial(line@),
{
    let line = trim(line);
    let n: usize = line.unicode_len();
    if n == 0 {
        return None;
    }
    match find(line, '\t') {
        Some(i) => {
            proof {
                lemma_position(line@, '\t');
            }
            let serial = line.substring_char(0, i);
            let status = line.substring_char(i + 1, n);
            proof {
                assert(serial@ =~= line@.take(i as int));
                assert(status@ =~= line@.skip(i + 1));
            }
            if same(trim(status), "device") {
                Some(trim(serial).to_owned())
            } else {
                None
            }
        },
        None => None,
    }
}

/// The serial numbers of the devices in the list `text` that are ready, in order.
pub fn read_list(text: &str) -> (serials: Vec<String>)
    ensures
        views(serials@) == ready_serials(text@),
{
    let found = split(trim(text), '\n');
    let ghost all = split_on(trimmed(text@), '\n');
    let ghost pick = |line: Seq<char>| ready_serial(line);
    let mut serials: Vec<String> = Vec::new();
    let mut i: usize = 0;
    proof {
        assert(all.take(0).filter_map(pick) =~= Seq::<Seq<char>>::empty());
        assert(views(serials@) =~= Seq::<Seq<char>>::empty());
    }
    while i < found.len()
        invariant
            str_views(found@) == all,
            pick == (|line: Seq<char>| ready_serial(line)),
            i <= found.len(),
            views(serials@) == all.take(i as int).filter_map(pick),
        decreases found.len() - i,
    {
        let ghost before = serials@;
        proof {
            assert(found@[i as int]@ == str_views(found@)[i as int]);
            assert(all.take(i + 1).drop_last() =~= all.take(i as int));
            assert(all.take(i + 1).last() == all[i as int]);
        }
        match read_line(found[i]) {
            Some(serial) => {
                serials.push(serial);
                proof {
                    assert(views(serials@) =~= views(before).push(serial@));
                }
            },
            None => {},
        }
        i += 1;
    }
    proof {
        assert(all.take(all.len() as int) =~= all);
    }
    serials
}

/// How many bytes are to be read.
pub fn wanted(awaiting: Awaiting) -> (n: usize)
    ensures
        n == match awaiting {
            Awaiting::Length => LENGTH_SIZE,
            Awaiting::List(n) => n,
        },
{
    match awaiting {
        Awaiting::Length => LENGTH_SIZE,
        Awaiting::List(n) => n,
    }
}

/// What there is to do after a read, which brought bytes or the end of the stream.
pub fn track(awaiting: Awaiting, read: Option<&[u8]>) -> (step: TrackStep)
    ensures
        step@ == stepped(
            awaiting,
            match read {
                Some(bytes) => Some(bytes@),
                None => None,
            },
        ),
{
    match (awaiting, read) {
        (Awaiting::Length, None) => TrackStep::Stop,
        (Awaiting::Length, Some(bytes)) => {
            match utf8_text(bytes) {
                Some(text) => {
                    match parse_hex(text) {
                        Some(n) => TrackStep::Read(Awaiting::List(n)),
                        None => TrackStep::Fail(TrackError::LengthNotHex),
                    }
                },
                None => TrackStep::Fail(TrackError::LengthNotUtf8),
            }
        },
        (Awaiting::List(_), None) => TrackStep::Fail(TrackError::ListMissing),
        (Awaiting::List(_), Some(bytes)) => {
            match utf8_text(bytes) {
                Some(text) => TrackStep::Announce(read_list(text)),
                None => TrackStep::Fail(TrackError::ListNotUtf8),
            }
        },
    }
}

/// The hexadecimal digit of a value.
pub open spec fn digit_char(d: int) -> char {
    if d < 10 {
        ('0' as u32 + d) as char
    } else {
        ('a' as u32 + d - 10) as char
    }
}

/// A number on four hexadecimal digits.
pub open spec fn four_digits(n: int) -> Seq<char> {
    seq![
        digit_char(n / 4096),
        digit_char(n / 256 % 16),
        digit_char(n / 16 % 16),
        digit_char(n % 16),
    ]
}

/// A device and its state.
pub struct Entry {
    pub serial: Seq<char>,
    pub status: Seq<char>,
}

/// Whether a part of an entry has no line feed, and no white space at its ends.
pub open spec fn is_field(s: Seq<char>) -> bool {
    &&& s.len() > 0
    &&& !is_white_space(s[0])
    &&& !is_white_space(s.last())
    &&& !s.contains('\n')
}

/// Whether an entry can stand on a line of a device list.
pub open spec fn is_entry(e: Entry) -> bool {
    &&& is_field(e.serial)
    &&& is_field(e.status)
    &&& !e.serial.contains('\t')
}

/// The line of an entry.
pub open spec fn line_for(e: Entry) -> Seq<char> {
    e.serial + seq!['\t'] + e.status
}

/// A device list: each entry on a line of its own.
pub open spec fn list_for(entries: Seq<Entry>) -> Seq<char>
    decreases entries.len(),
{
    if entries.len() == 0 {
        Seq::empty()
    } else {
        line_for(entries[0]) + seq!['\n'] + list_for(entries.skip(1))
    }
}

/// The serial number of an entry, where its device is ready.
pub open spec fn serial_if_ready(e: Entry) -> Option<Seq<char>> {
    if e.status == "device"@ {
        Some(e.serial)
    } else {
        None
    }
}

/// The serial number on the line of an entry.
proof fn lemma_line_read_back(e: Entry)
    requires
        is_entry(e),
    ensures
        trimmed(line_for(e)) == line_for(e),
        !line_for(e).contains('\n'),
        ready_serial(line_for(e)) == serial_if_ready(e),
{
    let line = line_for(e);
    assert(line[0] == e.serial[0]);
    assert(line.last() == e.status.last());
    lemma_trimmed_already(line);
    lemma_trimmed_already(e.serial);
    lemma_trimmed_already(e.status);
    let at = e.serial.len() as int;
    assert forall|j: int| 0 <= j < at implies line[j] != '\t' by {
        assert(line[j] == e.serial[j]);
        assert(e.serial.contains(e.serial[j]));
    }
    lemma_position_at(line, '\t', at);
    assert(line.take(at) =~= e.serial);
    assert(line.skip(at + 1) =~= e.status);
    if line.contains('\n') {
        let j = choose|j: int| 0 <= j < line.len() && line[j] == '\n';
        if j < at {
            assert(e.serial.contains(e.serial[j]));
        } else if j > at {
            assert(e.status.contains(e.status[j - at - 1]));
        }
    }
}

/// The lines of a device list, without the line feed at its end.
proof fn lemma_list_lines(entries: Seq<Entry>)
    requires
        entries.len() > 0,
        forall|i: int| 0 <= i < entries.len() ==> is_entry(#[trigger] entries[i]),
    ensures
        list_for(entries).len() > 1,
        list_for(entries)[0] == entries[0].serial[0],
        list_for(entries).last() == '\n',
        list_for(entries)[list_for(entries).len() - 2] == entries.last().status.last(),
        split_on(list_for(entries).drop_last(), '\n') == entries.map_values(
            |e: Entry| line_for(e),
        ),
    decreases entries.len(),
{
    let text = list_for(entries);
    let first = line_for(entries[0]);
    let rest = entries.skip(1);
    let body = text.drop_last();
    let lines = entries.map_values(|e: Entry| line_for(e));
    assert(is_entry(entries[0]));
    lemma_line_read_back(entries[0]);
    lemma_position(body, '\n');
    if rest.len() == 0 {
        assert(list_for(rest) =~= Seq::<char>::empty());
        assert(body =~= first);
        assert(lines =~= seq![first]);
    } else {
        assert forall|i: int| 0 <= i < rest.len() implies is_entry(#[trigger] rest[i]) by {
            assert(rest[i] == entries[i + 1]);
        }
        lemma_list_lines(rest);
        let at = first.len() as int;
        assert(body[at] == '\n');
        assert forall|j: int| 0 <= j < at implies body[j] != '\n' by {
            assert(body[j] == first[j]);
            assert(first.contains(first[j]));
        }
        lemma_position_at(body, '\n', at);
        assert(body.take(at) =~= first);
        assert(body.skip(at + 1) =~= list_for(rest).drop_last());
        assert(lines =~= seq![first] + rest.map_values(|e: Entry| line_for(e)));
        assert(text[text.len() - 2] == list_for(rest)[list_for(rest).len() - 2]);
    }
}

/// What is read from the lines of entries.
proof fn lemma_entries_read_back(entries: Seq<Entry>)
    requires
        forall|i: int| 0 <= i < entries.len() ==> is_entry(#[trigger] entries[i]),
    ensures
        entries.map_values(|e: Entry| line_for(e)).filter_map(
            |line: Seq<char>| ready_serial(line),
        ) == entries.filter_map(|e: Entry| serial_if_ready(e)),
    decreases entries.len(),
{
    let lines = entries.map_values(|e: Entry| line_for(e));
    if entries.len() > 0 {
        let before = entries.drop_last();
        assert forall|i: int| 0 <= i < before.len() implies is_entry(#[trigger] before[i]) by {
            assert(before[i] == entries[i]);
        }
        lemma_entries_read_back(before);
        assert(lines.drop_last() =~= before.map_values(|e: Entry| line_for(e)));
        assert(is_entry(entries[entries.len() - 1]));
        lemma_line_read_back(entries.last());
    }
}

/// A device list gives back the serial numbers of its entries whose state is `device`, in order.
pub proof fn law_list_read_back(entries: Seq<Entry>)
    requires
        forall|i: int| 0 <= i < entries.len() ==> is_entry(#[trigger] entries[i]),
    ensures
        ready_serials(list_for(entries)) == entries.filter_map(|e: Entry| serial_if_ready(e)),
{
    let text = list_for(entries);
    if entries.len() == 0 {
        assert(text =~= Seq::<char>::empty());
        assert(trimmed(text) == text);
        assert(split_on(text, '\n') == seq![text]);
        reveal_with_fuel(Seq::filter_map, 2);
        assert(ready_serial(text) is None);
        assert(seq![text].drop_last() =~= Seq::<Seq<char>>::empty());
    } else {
        lemma_list_lines(entries);
        lemma_entries_read_back(entries);
        let body = text.drop_last();
        assert(is_entry(entries[0]));
        assert(is_entry(entries[entries.len() - 1]));
        assert(body.last() == text[text.len() - 2]);
        assert(trimmed_start(text) == text);
        assert(trimmed_end(text) == trimmed_end(body));
        assert(trimmed_end(body) == body);
    }
}

/// A length on four hexadecimal digits, of lower case, is read back.
pub proof fn law_length_read_back(n: int)
    requires
        0 <= n <= 0xffff,
    ensures
        stepped(Awaiting::Length, Some(encode_utf8(four_digits(n)))) == TrackStepView::Read(
            Awaiting::List(n as usize),
        ),
        four_digits(n).len() == LENGTH_SIZE,
{
    let s = four_digits(n);
    encode_utf8_valid_utf8(s);
    encode_utf8_decode_utf8(s);
    assert(digits_of(s) == s);
    assert(all_digits(s));
    let three = s.drop_last();
    let two = three.drop_last();
    let one = two.drop_last();
    assert(one.drop_last() =~= Seq::<char>::empty());
    assert(digit_of(s[0]) == Some((n / 4096) as nat));
    assert(digit_of(s[1]) == Some((n / 256 % 16) as nat));
    assert(digit_of(s[2]) == Some((n / 16 % 16) as nat));
    assert(digit_of(s[3]) == Some((n % 16) as nat));
    assert(value_of(one.drop_last()) == 0);
    assert(value_of(one) == n / 4096);
    assert(n / 256 == n / 4096 * 16 + n / 256 % 16);
    assert(value_of(two) == n / 256);
    assert(n / 16 == n / 256 * 16 + n / 16 % 16);
    assert(value_of(three) == n / 16);
    assert(value_of(s) == n);
}

/// A frame is read back: the length tells how many bytes follow, and these announce the devices
/// that are ready.
pub proof fn law_frame_read_back(entries: Seq<Entry>)
    requires
        forall|i: int| 0 <= i < entries.len() ==> is_entry(#[trigger] entries[i]),
        encode_utf8(list_for(entries)).len() <= 0xffff,
    ensures
        ({
            let list = encode_utf8(list_for(entries));
            let length = encode_utf8(four_digits(list.len() as int));
            let awaiting = Awaiting::List(list.len() as usize);
            &&& stepped(Awaiting::Length, Some(length)) == TrackStepView::Read(awaiting)
            &&& stepped(awaiting, Some(list)) == TrackStepView::Announce(
                entries.filter_map(|e: Entry| serial_if_ready(e)),
            )
        }),
{
    let text = list_for(entries);
    law_length_read_back(encode_utf8(text).len() as int);
    encode_utf8_valid_utf8(text);
    encode_utf8_decode_utf8(text);
    law_list_read_back(entries);
}

/// Whether `c` is the hexadecimal digit of the value `d`, of either case.
pub open spec fn writes(c: char, d: int) -> bool {
    0 <= d < 16 && (c == "0123456789abcdef"@[d] || c == "0123456789ABCDEF"@[d])
}

/// The value of a digit is its place among the digits.
proof fn lemma_digit_of(c: char)
    ensures
        digit_of(c) is Some <==> exists|d: int| writes(c, d),
        forall|d: int| writes(c, d) ==> digit_of(c) == Some(d as nat),
{
    reveal_strlit("0123456789abcdef");
    reveal_strlit("0123456789ABCDEF");
    if digit_of(c) is Some {
        assert(writes(c, digit_of(c)->0 as int));
    }
}

/// What a further character does to a number: a digit makes it sixteen times as large and adds the
/// digit, where the result fits in a `usize`, and anything else spoils it. A plus sign may stand
/// in front, but no number is without a digit.
pub proof fn law_hex(s: Seq<char>, c: char)
    ensures
        hex_of(Seq::<char>::empty()) is None,
        hex_of(seq!['+']) is None,
        forall|d: int| #[trigger]
            writes(c, d) && (s.len() == 0 || s == seq!['+']) ==> hex_of(s.push(c)) == Some(
                d as nat,
            ),
        forall|d: int| #[trigger]
            writes(c, d) && s.len() > 0 && s != seq!['+'] ==> match hex_of(s) {
                Some(v) => hex_of(s.push(c)) == if 16 * v + d <= usize::MAX {
                    Some((16 * v + d) as nat)
                } else {
                    None
                },
                None => hex_of(s.push(c)) is None,
            },
        (forall|d: int| !#[trigger] writes(c, d)) ==> hex_of(s.push(c)) is None,
{
    let t = s.push(c);
    lemma_digit_of(c);
    assert(digits_of(seq!['+']) =~= Seq::<char>::empty());
    if s.len() == 0 {
        assert(s =~= Seq::<char>::empty());
        if c == '+' {
            assert(t =~= seq!['+']);
            assert(digit_of('+') is None);
        } else {
            assert(digits_of(t) == t);
            assert(t.drop_last() =~= Seq::<char>::empty());
            assert(t[0] == c);
            reveal_with_fuel(value_of, 2);
        }
    } else {
        let digits = digits_of(s);
        let more = digits_of(t);
        assert(t[0] == s[0]);
        assert(more =~= digits.push(c));
        assert(more.drop_last() =~= digits);
        assert(more[more.len() - 1] == c);
        assert(value_of(more) == value_of(digits) * 16 + digit_of(c)->0);
        if all_digits(more) {
            assert forall|i: int| 0 <= i < digits.len() implies (#[trigger] digit_of(
                digits[i],
            )) is Some by {
                assert(digit_of(more[i]) is Some);
            }
        }
        if all_digits(digits) && digit_of(c) is Some {
            assert forall|i: int| 0 <= i < more.len() implies (#[trigger] digit_of(
                more[i],
            )) is Some by {
                if i < digits.len() {
                    assert(digit_of(digits[i]) is Some);
                }
            }
        }
        if digits.len() == 0 {
            assert(s =~= seq!['+']);
            assert(digits =~= Seq::<char>::empty());
            reveal_with_fuel(value_of, 2);
        } else {
            assert(s != seq!['+']) by {
                if s == seq!['+'] {
                    assert(digits.len() == 0);
                }
            }
        }
    }
}

/// A line names a ready device where, blanks apart, it holds a serial number, a tab, and the word
/// `device`. With another word, and without a tab, it names none.
pub proof fn law_line_read(
    before: Seq<char>,
    serial: Seq<char>,
    left: Seq<char>,
    right: Seq<char>,
    status: Seq<char>,
    behind: Seq<char>,
)
    requires
        is_blank(before) && is_blank(left) && is_blank(right) && is_blank(behind),
        serial.len() > 0 ==> !is_white_space(serial[0]) && !is_white_space(serial.last()),
        status.len() > 0 && !is_white_space(status[0]) && !is_white_space(status.last()),
        !serial.contains('\t') && !left.contains('\t'),
    ensures
        ready_serial(before + serial + behind) is None,
        serial.len() > 0 ==> ready_serial(
            before + (serial + left + seq!['\t'] + right + status) + behind,
        ) == if status == seq!['d', 'e', 'v', 'i', 'c', 'e'] {
            Some(serial)
        } else {
            None
        },
{
    reveal_strlit("device");
    assert("device"@ =~= seq!['d', 'e', 'v', 'i', 'c', 'e']);
    law_trim_takes_blanks(before, serial, behind);
    lemma_position(serial, '\t');
    if serial.len() > 0 {
        let none = Seq::<char>::empty();
        let body = serial + left + seq!['\t'] + right + status;
        assert(body[0] == serial[0]);
        assert(body.last() == status.last());
        law_trim_takes_blanks(before, body, behind);
        let at = (serial + left).len() as int;
        assert(body[at] == '\t');
        assert forall|j: int| 0 <= j < at implies body[j] != '\t' by {
            if j < serial.len() {
                assert(serial.contains(serial[j]));
            } else {
                assert(left.contains(left[j - serial.len()]));
            }
        }
        lemma_position_at(body, '\t', at);
        assert(body.take(at) =~= none + serial + left);
        assert(body.skip(at + 1) =~= right + status + none);
        law_trim_takes_blanks(none, serial, left);
        law_trim_takes_blanks(right, status, none);
    }
}

/// A device list announces the ready devices of its lines, in order, and nothing where it is blank.
pub proof fn law_list_read(
    awaiting: Awaiting,
    bytes: Seq<u8>,
    before: Seq<char>,
    lines: Seq<Seq<char>>,
    behind: Seq<char>,
)
    requires
        awaiting is List,
        valid_utf8(bytes),
        is_blank(before),
        is_blank(behind),
        decode_utf8(bytes) == before + joined(lines, seq!['\n']) + behind,
        forall|i: int| 0 <= i < lines.len() ==> !(#[trigger] lines[i]).contains('\n'),
        lines.len() > 0 ==> lines[0].len() > 0 && !is_white_space(lines[0][0]),
        lines.len() > 0 ==> lines.last().len() > 0 && !is_white_space(lines.last().last()),
    ensures
        stepped(awaiting, Some(bytes)) == TrackStepView::Announce(
            lines.filter_map(|line: Seq<char>| ready_serial(line)),
        ),
{
    let body = joined(lines, seq!['\n']);
    if lines.len() > 0 {
        lemma_joined_ends(lines, seq!['\n']);
        law_trim_takes_blanks(before, body, behind);
        law_join_splits_again(lines, '\n');
    } else {
        law_trim_takes_blanks(before, body, behind);
        let none = Seq::<char>::empty();
        assert(body =~= none);
        assert(split_on(none, '\n') =~= seq![none]);
        reveal_with_fuel(Seq::filter_map, 2);
        assert(trimmed(none) == none);
        assert(ready_serial(none) is None);
        assert(seq![none].drop_last() =~= Seq::<Seq<char>>::empty());
        assert(lines =~= Seq::<Seq<char>>::empty());
    }
}

/// A length is followed by a device list of so many bytes, where it is text and a number, and
/// nothing follows anything else. The stream may end before a length, but not before a list.
pub proof fn law_stream(bytes: Seq<u8>, n: usize)
    ensures
        stepped(Awaiting::Length, None) is Stop,
        stepped(Awaiting::List(n), None) == TrackStepView::Fail(TrackError::ListMissing),
        !valid_utf8(bytes) ==> stepped(Awaiting::Length, Some(bytes)) == TrackStepView::Fail(
            TrackError::LengthNotUtf8,
        ),
        !valid_utf8(bytes) ==> stepped(Awaiting::List(n), Some(bytes)) == TrackStepView::Fail(
            TrackError::ListNotUtf8,
        ),
        valid_utf8(bytes) ==> stepped(Awaiting::List(n), Some(bytes)) is Announce,
        valid_utf8(bytes) && hex_of(decode_utf8(bytes)) is None ==> stepped(
            Awaiting::Length,
            Some(bytes),
        ) == TrackStepView::Fail(TrackError::LengthNotHex),
        valid_utf8(bytes) && hex_of(decode_utf8(bytes)) == Some(n as nat) ==> stepped(
            Awaiting::Length,
            Some(bytes),
        ) == TrackStepView::Read(Awaiting::List(n)),
{
}

} // verus!
