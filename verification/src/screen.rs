//! What the screen says: the entries of the device list, and the question about the serial number.

use vstd::prelude::*;
use crate::device::{DeviceInfo, DeviceView};
use crate::picker::{device_views, find_device, lemma_place_of, place_of};
use crate::text::view_of;

verus! {

/// A colour of the terminal.
#[derive(Clone, Copy, Debug, PartialEq, Eq, Structural)]
pub enum Color {
    White,
    Red,
    Green,
    Yellow,
    Cyan,
    DarkGray,
    LightBlue,
    LightMagenta,
}

/// How text is shown.
#[derive(Clone, Copy, Debug, PartialEq, Eq, Structural)]
pub struct Style {
    pub fg: Option<Color>,
    pub bg: Option<Color>,
    pub bold: bool,
    pub italic: bool,
}

/// A piece of text that is shown in one way.
#[derive(Clone, Debug)]
pub struct Span {
    pub text: String,
    pub style: Style,
}

/// A line of the screen.
#[derive(Clone, Debug)]
pub struct Line {
    pub spans: Vec<Span>,
}

/// What a `Span` holds.
pub struct SpanView {
    pub text: Seq<char>,
    pub style: Style,
}

impl View for Span {
    type V = SpanView;

    open spec fn view(&self) -> SpanView {
        SpanView { text: self.text@, style: self.style }
    }
}

impl View for Line {
    type V = Seq<SpanView>;

    open spec fn view(&self) -> Seq<SpanView> {
        self.spans@.map_values(|s: Span| s@)
    }
}

/// What the lines of a vector hold.
pub open spec fn line_views(lines: Seq<Line>) -> Seq<Seq<SpanView>> {
    lines.map_values(|l: Line| l@)
}

/// Text as it is.
pub open spec fn plain() -> Style {
    Style { fg: None, bg: None, bold: false, italic: false }
}

/// Text in a colour.
pub open spec fn colored(fg: Color) -> Style {
    Style { fg: Some(fg), ..plain() }
}

/// A line with the name of a device and its serial number.
pub open spec fn title_of(d: DeviceView) -> Seq<SpanView> {
    seq![
        SpanView { text: d.name, style: Style { bold: true, ..colored(Color::Cyan) } },
        SpanView { text: " ("@, style: plain() },
        SpanView { text: d.serial, style: colored(Color::Green) },
        SpanView { text: ")"@, style: plain() },
    ]
}

/// The line that stands for the properties of a device before they are known.
pub open spec fn loading_of(indent: Seq<char>) -> Seq<SpanView> {
    seq![
        SpanView {
            text: indent + "Loading properties..."@,
            style: Style { italic: true, ..colored(Color::LightBlue) },
        },
    ]
}

/// The lines with the properties of a device.
pub open spec fn properties_of(d: DeviceView, indent: Seq<char>) -> Seq<Seq<SpanView>> {
    let always = seq![
        seq![
            SpanView {
                text: indent + "Fingerprint: "@ + d.fingerprint,
                style: colored(Color::LightBlue),
            },
        ],
        seq![
            SpanView {
                text: indent + "Android "@ + d.release + " (SDK "@ + d.sdk + ")"@,
                style: colored(Color::Yellow),
            },
        ],
    ];
    match d.users {
        Some(users) => always.push(
            seq![SpanView { text: indent + users, style: colored(Color::LightMagenta) }],
        ),
        None => always,
    }
}

/// The line below an entry of the list.
pub open spec fn rule() -> Seq<SpanView> {
    seq![
        SpanView {
            text: "    "@ + Seq::new(40, |i: int| '-'),
            style: colored(Color::DarkGray),
        },
    ]
}

/// The lines of a device in the list.
pub open spec fn item_of(d: DeviceView) -> Seq<Seq<SpanView>> {
    let middle = if d.loading {
        seq![loading_of("    "@), seq![SpanView { text: ""@, style: plain() }]]
    } else {
        properties_of(d, "    "@)
    };
    seq![title_of(d)] + middle + seq![rule()]
}

/// The lines that describe the current serial number: the device, where it is in the list.
pub open spec fn description_of(current: Option<Seq<char>>, devices: Seq<DeviceView>) -> Seq<
    Seq<SpanView>,
> {
    match current {
        None => seq![seq![SpanView { text: "(None)"@, style: colored(Color::DarkGray) }]],
        Some(serial) => match place_of(devices, serial) {
            Some(i) => seq![title_of(devices[i])] + if devices[i].loading {
                seq![loading_of("  "@)]
            } else {
                properties_of(devices[i], "  "@)
            },
            None => seq![
                seq![
                    SpanView {
                        text: "(Serial: "@ + serial + ")"@,
                        style: Style { bold: true, ..colored(Color::Green) },
                    },
                ],
            ],
        },
    }
}

/// How a button is shown: filled with its colour where it is chosen, else in its colour.
pub open spec fn button_of(color: Color, chosen: bool) -> Style {
    if chosen {
        Style { fg: Some(Color::White), bg: Some(color), bold: true, italic: false }
    } else {
        colored(color)
    }
}

/// Text in a colour.
fn in_color(fg: Color) -> (style: Style)
    ensures
        style == colored(fg),
{
    Style { fg: Some(fg), bg: None, bold: false, italic: false }
}

/// A line of one piece of text.
fn line_of(text: String, style: Style) -> (line: Line)
    ensures
        line@ == seq![SpanView { text: text@, style }],
{
    let line = Line { spans: vec![Span { text, style }] };
    proof {
        assert(line@ =~= seq![SpanView { text: text@, style }]);
    }
    line
}

/// A line with the name of a device and its serial number.
fn title_line(device: &DeviceInfo) -> (line: Line)
    ensures
        line@ == title_of(device@),
{
    let plain = Style { fg: None, bg: None, bold: false, italic: false };
    let name = Style { fg: Some(Color::Cyan), bg: None, bold: true, italic: false };
    let line = Line {
        spans: vec![
            Span { text: device.name.clone(), style: name },
            Span { text: " (".to_owned(), style: plain },
            Span { text: device.serial.clone(), style: in_color(Color::Green) },
            Span { text: ")".to_owned(), style: plain },
        ],
    };
    proof {
        assert(line@ =~= title_of(device@));
    }
    line
}

/// The line that stands for the properties of a device before they are known.
fn loading_line(indent: &str) -> (line: Line)
    ensures
        line@ == loading_of(indent@),
{
    let mut text = indent.to_owned();
    text.append("Loading properties...");
    line_of(text, Style { fg: Some(Color::LightBlue), bg: None, bold: false, italic: true })
}

/// The lines with the properties of a device.
fn properties_lines(device: &DeviceInfo, indent: &str) -> (lines: Vec<Line>)
    ensures
        line_views(lines@) == properties_of(device@, indent@),
{
    let mut fingerprint = indent.to_owned();
    fingerprint.append("Fingerprint: ");
    fingerprint.append(device.fingerprint.as_str());
    let mut android = indent.to_owned();
    android.append("Android ");
    android.append(device.release.as_str());
    android.append(" (SDK ");
    android.append(device.sdk.as_str());
    android.append(")");
    let mut lines = vec![
        line_of(fingerprint, in_color(Color::LightBlue)),
        line_of(android, in_color(Color::Yellow)),
    ];
    match &device.users {
        Some(users) => {
            let mut text = indent.to_owned();
            text.append(users.as_str());
            lines.push(line_of(text, in_color(Color::LightMagenta)));
        },
        None => {},
    }
    proof {
        assert(line_views(lines@) =~= properties_of(device@, indent@));
    }
    lines
}

/// The line below an entry of the list.
fn rule_line() -> (line: Line)
    ensures
        line@ == rule(),
{
    let mut text = "    ".to_owned();
    let mut i: usize = 0;
    proof {
        assert(Seq::new(0, |j: int| '-') =~= Seq::<char>::empty());
        assert("    "@ + Seq::new(0, |j: int| '-') =~= "    "@);
    }
    while i < 40
        invariant
            i <= 40,
            text@ == "    "@ + Seq::new(i as nat, |j: int| '-'),
        decreases 40 - i,
    {
        text.append("-");
        proof {
            reveal_strlit("-");
            assert(text@ =~= "    "@ + Seq::new((i + 1) as nat, |j: int| '-'));
        }
        i += 1;
    }
    line_of(text, in_color(Color::DarkGray))
}

/// The lines of a device in the list.
pub fn device_item(device: &DeviceInfo) -> (lines: Vec<Line>)
    ensures
        line_views(lines@) == item_of(device@),
{
    let mut lines = vec![title_line(device)];
    if device.loading {
        lines.push(loading_line("    "));
        lines.push(
            line_of("".to_owned(), Style { fg: None, bg: None, bold: false, italic: false }),
        );
    } else {
        let mut properties = properties_lines(device, "    ");
        lines.append(&mut properties);
    }
    lines.push(rule_line());
    proof {
        assert(line_views(lines@) =~= item_of(device@));
    }
    lines
}

/// The lines that describe the current serial number: the device, where it is in the list.
pub fn abort_description(current: &Option<String>, devices: &Vec<DeviceInfo>) -> (lines: Vec<Line>)
    ensures
        line_views(lines@) == description_of(view_of(*current), device_views(devices@)),
{
    let ghost known = device_views(devices@);
    let serial = match current {
        Some(serial) => serial,
        None => {
            let lines = vec![line_of("(None)".to_owned(), in_color(Color::DarkGray))];
            proof {
                assert(line_views(lines@) =~= description_of(None, known));
            }
            return lines;
        },
    };
    match find_device(devices, serial) {
        Some(i) => {
            let mut lines = vec![title_line(&devices[i])];
            if devices[i].loading {
                lines.push(loading_line("  "));
            } else {
                let mut properties = properties_lines(&devices[i], "  ");
                lines.append(&mut properties);
            }
            proof {
                assert(known[i as int] == devices@[i as int]@);
                assert(line_views(lines@) =~= description_of(Some(serial@), known));
            }
            return lines;
        },
        None => {},
    }
    let mut text = "(Serial: ".to_owned();
    text.append(serial.as_str());
    text.append(")");
    let style = Style { fg: Some(Color::Green), bg: None, bold: true, italic: false };
    let lines = vec![line_of(text, style)];
    proof {
        assert(line_views(lines@) =~= description_of(Some(serial@), known));
    }
    lines
}

/// How the button is shown that keeps the current serial number.
pub fn keep_style(selected_option: usize) -> (style: Style)
    ensures
        style == button_of(Color::Green, selected_option == 0),
        style.bg is Some <==> selected_option == 0,
{
    if selected_option == 0 {
        Style { fg: Some(Color::White), bg: Some(Color::Green), bold: true, italic: false }
    } else {
        in_color(Color::Green)
    }
}

/// How the button is shown that clears the current serial number.
pub fn clear_style(selected_option: usize) -> (style: Style)
    ensures
        style == button_of(Color::Red, selected_option == 1),
        style.bg is Some <==> selected_option == 1,
{
    if selected_option == 1 {
        Style { fg: Some(Color::White), bg: Some(Color::Red), bold: true, italic: false }
    } else {
        in_color(Color::Red)
    }
}

/// Whether a line is one piece of text, shown in the one way.
pub open spec fn says(line: Seq<SpanView>, text: Seq<char>, style: Style) -> bool {
    line.len() == 1 && line[0].text == text && line[0].style == style
}

/// Whether a line shows the name in bold cyan and behind it, between brackets, the serial number
/// in green.
pub open spec fn titles(line: Seq<SpanView>, name: Seq<char>, serial: Seq<char>) -> bool {
    &&& line.len() == 4
    &&& line[0].text == name
    &&& line[0].style == (Style {
        fg: Some(Color::Cyan),
        bg: None,
        bold: true,
        italic: false,
    })
    &&& line[1].text == seq![' ', '(']
    &&& line[1].style == (Style {
        fg: None,
        bg: None,
        bold: false,
        italic: false,
    })
    &&& line[2].text == serial
    &&& line[2].style == (Style {
        fg: Some(Color::Green),
        bg: None,
        bold: false,
        italic: false,
    })
    &&& line[3].text == seq![')']
    &&& line[3].style == (Style {
        fg: None,
        bg: None,
        bold: false,
        italic: false,
    })
}

/// The entry of a device starts with its name and its serial number and ends with a rule of forty
/// dashes, four places from the left.
pub proof fn law_entry_has_title_and_rule(d: DeviceView)
    ensures
        item_of(d).len() >= 4,
        titles(item_of(d)[0], d.name, d.serial),
        item_of(d).last().len() == 1,
        item_of(d).last()[0].text.len() == 44,
        forall|i: int| 0 <= i < 4 ==> #[trigger] item_of(d).last()[0].text[i] == ' ',
        forall|i: int| 4 <= i < 44 ==> #[trigger] item_of(d).last()[0].text[i] == '-',
        item_of(d).last()[0].style == (Style {
            fg: Some(Color::DarkGray),
            bg: None,
            bold: false,
            italic: false,
        }),
{
    reveal_strlit(" (");
    reveal_strlit(")");
    reveal_strlit("    ");
    assert(" ("@ =~= seq![' ', '(']);
    assert(")"@ =~= seq![')']);
}

/// While a device is loading, its entry says so in place of the properties, and says no more.
pub proof fn law_entry_while_loading(d: DeviceView)
    requires
        d.loading,
    ensures
        item_of(d).len() == 4,
        says(
            item_of(d)[1],
            "    "@ + "Loading properties..."@,
            Style { fg: Some(Color::LightBlue), bg: None, bold: false, italic: true },
        ),
        says(
            item_of(d)[2],
            Seq::<char>::empty(),
            Style { fg: None, bg: None, bold: false, italic: false },
        ),
{
    reveal_strlit("");
    assert(""@ =~= Seq::<char>::empty());
}

/// Once a device is loaded its entry shows the fingerprint, and the release with the SDK, whether
/// or not its users are known, and the users where they are. It says nothing of loading.
pub proof fn law_entry_once_loaded(d: DeviceView)
    requires
        !d.loading,
    ensures
        says(
            item_of(d)[1],
            "    "@ + "Fingerprint: "@ + d.fingerprint,
            Style { fg: Some(Color::LightBlue), bg: None, bold: false, italic: false },
        ),
        says(
            item_of(d)[2],
            "    "@ + "Android "@ + d.release + " (SDK "@ + d.sdk + ")"@,
            Style { fg: Some(Color::Yellow), bg: None, bold: false, italic: false },
        ),
        d.users is None ==> item_of(d).len() == 4,
        d.users matches Some(users) ==> item_of(d).len() == 5 && says(
            item_of(d)[3],
            "    "@ + users,
            Style { fg: Some(Color::LightMagenta), bg: None, bold: false, italic: false },
        ),
{
}

/// Text in italics stands in an entry exactly while the device is loading.
pub proof fn law_italics_mean_loading(d: DeviceView)
    ensures
        d.loading <==> exists|i: int, j: int|
            0 <= i < item_of(d).len() && 0 <= j < item_of(d)[i].len() && (
            #[trigger] item_of(d)[i][j]).style.italic,
{
    law_entry_has_title_and_rule(d);
    if d.loading {
        law_entry_while_loading(d);
        assert(item_of(d)[1][0].style.italic);
    } else {
        law_entry_once_loaded(d);
        assert forall|i: int, j: int|
            0 <= i < item_of(d).len() && 0 <= j < item_of(d)[i].len() implies !(
        #[trigger] item_of(d)[i][j]).style.italic by {
            if i == 0 {
                assert(j == 0 || j == 1 || j == 2 || j == 3);
            } else if i == 3 && item_of(d).len() == 4 {
                assert(item_of(d)[i] == item_of(d).last());
            } else if i == 4 {
                assert(item_of(d)[i] == item_of(d).last());
            }
        }
    }
}

/// What is asked about is shown as a device where the list has it, with what is known of the first
/// one of that serial number; else by the serial number alone.
pub proof fn law_description(serial: Seq<char>, devices: Seq<DeviceView>, i: int)
    ensures
        description_of(None, devices).len() == 1,
        says(
            description_of(None, devices)[0],
            "(None)"@,
            Style { fg: Some(Color::DarkGray), bg: None, bold: false, italic: false },
        ),
        (forall|j: int| 0 <= j < devices.len() ==> (#[trigger] devices[j]).serial != serial) ==> {
            let lines = description_of(Some(serial), devices);
            lines.len() == 1 && says(
                lines[0],
                "(Serial: "@ + serial + ")"@,
                Style { fg: Some(Color::Green), bg: None, bold: true, italic: false },
            )
        },
        0 <= i < devices.len() && devices[i].serial == serial && (forall|j: int|
            0 <= j < i ==> (#[trigger] devices[j]).serial != serial) ==> {
            let lines = description_of(Some(serial), devices);
            let d = devices[i];
            &&& titles(lines[0], d.name, serial)
            &&& d.loading ==> lines.len() == 2 && says(
                lines[1],
                "  "@ + "Loading properties..."@,
                Style { fg: Some(Color::LightBlue), bg: None, bold: false, italic: true },
            )
            &&& !d.loading ==> {
                &&& says(
                    lines[1],
                    "  "@ + "Fingerprint: "@ + d.fingerprint,
                    Style { fg: Some(Color::LightBlue), bg: None, bold: false, italic: false },
                )
                &&& says(
                    lines[2],
                    "  "@ + "Android "@ + d.release + " (SDK "@ + d.sdk + ")"@,
                    Style { fg: Some(Color::Yellow), bg: None, bold: false, italic: false },
                )
                &&& d.users is None ==> lines.len() == 3
                &&& d.users matches Some(users) ==> lines.len() == 4 && says(
                    lines[3],
                    "  "@ + users,
                    Style { fg: Some(Color::LightMagenta), bg: None, bold: false, italic: false },
                )
            }
        },
{
    lemma_place_of(devices, serial);
    reveal_strlit(" (");
    reveal_strlit(")");
    assert(" ("@ =~= seq![' ', '(']);
    assert(")"@ =~= seq![')']);
    if 0 <= i < devices.len() && devices[i].serial == serial && (forall|j: int|
        0 <= j < i ==> (#[trigger] devices[j]).serial != serial) {
        let k = place_of(devices, serial)->0;
        assert(devices[k].serial == serial);
        assert(k == i);
    }
}

/// A chosen button is filled with its colour, under bold white text; any other one is not filled
/// and has its text in the colour.
pub proof fn law_chosen_button_is_filled(color: Color)
    ensures
        button_of(color, true) == (Style {
            fg: Some(Color::White),
            bg: Some(color),
            bold: true,
            italic: false,
        }),
        button_of(color, false) == (Style {
            fg: Some(color),
            bg: None,
            bold: false,
            italic: false,
        }),
{
}

} // verus!
