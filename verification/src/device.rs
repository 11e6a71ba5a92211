//! What is known of a device, and how it is read from the output of `adb`.

use vstd::prelude::*;
use vstd::utf8::{
    decode_utf8, encode_utf8, encode_utf8_decode_utf8, encode_utf8_valid_utf8, valid_utf8,
};
use crate::decode::{lossy_text, utf8_lossy};
use crate::text::{
    find, is_blank, is_white_space, join, joined, law_join, law_join_splits_again,
    law_lines_read_back, law_trim_takes_blanks, lemma_joined_ends, lemma_position,
    lemma_position_at, lines, lines_of, position, same, split, split_on, str_views, text_of, trim,
    trimmed, view_of, views, without_cr,
};

verus! {

/// A device of the list.
#[derive(Clone, Debug)]
pub struct DeviceInfo {
    pub serial: String,
    pub name: String,
    pub fingerprint: String,
    pub release: String,
    pub sdk: String,
    pub users: Option<String>,
    pub loading: bool,
}

/// What a `DeviceInfo` holds.
pub struct DeviceView {
    pub serial: Seq<char>,
    pub name: Seq<char>,
    pub fingerprint: Seq<char>,
    pub release: Seq<char>,
    pub sdk: Seq<char>,
    pub users: Option<Seq<char>>,
    pub loading: bool,
}

impl View for DeviceInfo {
    type V = DeviceView;

    open spec fn view(&self) -> DeviceView {
        DeviceView {
            serial: self.serial@,
            name: self.name@,
            fingerprint: self.fingerprint@,
            release: self.release@,
            sdk: self.sdk@,
            users: view_of(self.users),
            loading: self.loading,
        }
    }
}

/// What a command that could be run left behind.
#[derive(Clone, Debug)]
pub struct CommandOutput {
    /// Whether it reported success.
    pub success: bool,
    /// What it wrote to its standard output.
    pub stdout: Vec<u8>,
}

/// Why the output of `adb` could not be read.
#[derive(Clone, Copy, Debug, PartialEq, Eq, Structural)]
pub enum DeviceError {
    /// In a line of the user list the first `}` stands before the first `{`.
    BracesReversed,
}

/// Where `line` has both braces, the first `{` stands before the first `}`.
pub open spec fn braces_in_order(line: Seq<char>) -> bool {
    match (position(line, '{'), position(line, '}')) {
        (Some(start), Some(end)) => start < end,
        _ => true,
    }
}

/// Every line of the user list `text` has its braces in order.
pub open spec fn users_readable(text: Seq<char>) -> bool {
    forall|i: int| 0 <= i < lines_of(text).len() ==> braces_in_order(#[trigger] lines_of(text)[i])
}

/// The profile that a line of the user list describes between its braces, by its first two
/// fields: `{0:Owner:c13}` is the profile `0 (Owner)`.
pub open spec fn profile_of(line: Seq<char>) -> Option<Seq<char>> {
    match (position(line, '{'), position(line, '}')) {
        (Some(start), Some(end)) => {
            let fields = split_on(line.subrange(start + 1, end), ':');
            if fields.len() >= 2 {
                Some(trimmed(fields[0]) + " ("@ + trimmed(fields[1]) + ")"@)
            } else {
                None
            }
        },
        _ => None,
    }
}

/// The profiles of the user list `text`, in order.
pub open spec fn profiles_of(text: Seq<char>) -> Seq<Seq<char>> {
    lines_of(text).filter_map(|line: Seq<char>| profile_of(line))
}

/// What is shown of the user list `text`: nothing, unless it has more than one profile.
pub open spec fn users_of(text: Seq<char>) -> Option<Seq<char>> {
    if profiles_of(text).len() > 1 {
        Some("Users: "@ + joined(profiles_of(text), ", "@))
    } else {
        None
    }
}

/// The name of a device whose `device_name` setting reads `text`: its serial number, where the
/// setting is empty or `null`.
pub open spec fn name_of(serial: Seq<char>, text: Seq<char>) -> Seq<char> {
    let name = trimmed(text);
    if name == "null"@ || name.len() == 0 {
        serial
    } else {
        name
    }
}

/// Line `i` of the properties `text`, or `Unknown` where there are fewer lines.
pub open spec fn property_of(text: Seq<char>, i: int) -> Seq<char> {
    let props = split_on(trimmed(text), '\n');
    if i < props.len() {
        trimmed(props[i])
    } else {
        "Unknown"@
    }
}

/// What is shown of the users, by the output of the command that lists them.
pub open spec fn users_by_output(output: Option<&CommandOutput>) -> Result<
    Option<Seq<char>>,
    DeviceError,
> {
    match output {
        Some(output) if output.success => {
            let text = utf8_lossy(output.stdout@);
            if users_readable(text) {
                Ok(users_of(text))
            } else {
                Err(DeviceError::BracesReversed)
            }
        },
        _ => Ok(None),
    }
}

/// What the command wrote is taken as it stands, where it is valid UTF-8.
pub open spec fn taken_as_it_stands(output: CommandOutput) -> bool {
    valid_utf8(output.stdout@) ==> utf8_lossy(output.stdout@) == decode_utf8(output.stdout@)
}

/// What is known of the device `serial`, by the outputs of the commands that ask for its name and
/// its properties (`None` where a command could not be run) and by what is shown of its users.
pub open spec fn info_by_outputs(
    serial: Seq<char>,
    name: Option<&CommandOutput>,
    props: Option<&CommandOutput>,
    users: Option<Seq<char>>,
) -> DeviceView {
    DeviceView {
        serial,
        name: match name {
            Some(output) => name_of(serial, utf8_lossy(output.stdout@)),
            None => serial,
        },
        fingerprint: match props {
            Some(output) => property_of(utf8_lossy(output.stdout@), 0),
            None => "Could not retrieve properties"@,
        },
        release: match props {
            Some(output) => property_of(utf8_lossy(output.stdout@), 1),
            None => "Unknown"@,
        },
        sdk: match props {
            Some(output) => property_of(utf8_lossy(output.stdout@), 2),
            None => "Unknown"@,
        },
        users,
        loading: false,
    }
}

/// What is known of the device `serial` before any command has been answered.
pub open spec fn placeholder(serial: Seq<char>) -> DeviceView {
    DeviceView {
        serial,
        name: serial,
        fingerprint: Seq::empty(),
        release: Seq::empty(),
        sdk: Seq::empty(),
        users: None,
        loading: true,
    }
}

/// Whether every line of the user list `text` has its braces in order.
pub fn check_users(text: &str) -> (ok: bool)
    ensures
        ok == users_readable(text@),
{
    let found = lines(text);
    let ghost all = lines_of(text@);
    let mut i: usize = 0;
    while i < found.len()
        invariant
            all == lines_of(text@),
            str_views(found@) == all,
            i <= found.len(),
            forall|j: int| 0 <= j < i ==> braces_in_order(#[trigger] all[j]),
        decreases found.len() - i,
    {
        proof {
            assert(found@[i as int]@ == str_views(found@)[i as int]);
        }
        match (find(found[i], '{'), find(found[i], '}')) {
            (Some(start), Some(end)) => {
                if end < start {
                    proof {
                        assert(!braces_in_order(all[i as int]));
                    }
                    return false;
                }
                proof {
                    lemma_position(all[i as int], '{');
                    lemma_position(all[i as int], '}');
                }
            },
            _ => {},
        }
        i += 1;
    }
    true
}

/// The profile that a line of the user list describes.
fn read_profile(line: &str) -> (profile: Option<String>)
    requires
        braces_in_order(line@),
    ensures
        view_of(profile) == profile_of(line@),
{
    match (find(line, '{'), find(line, '}')) {
        (Some(start), Some(end)) => {
            proof {
                lemma_position(line@, '{');
                lemma_position(line@, '}');
            }
            let inner = line.substring_char(start + 1, end);
            let fields = split(inner, ':');
            proof {
                assert(str_views(fields@).len() == fields@.len());
            }
            if fields.len() >= 2 {
                proof {
                    assert(str_views(fields@)[0] == fields@[0]@);
                    assert(str_views(fields@)[1] == fields@[1]@);
                }
                let mut profile = trim(fields[0]).to_owned();
                profile.append(" (");
                profile.append(trim(fields[1]));
                profile.append(")");
                Some(profile)
            } else {
                None
            }
        },
        _ => None,
    }
}

/// What is shown of the user list `text`.
pub fn users_from_text(text: &str) -> (users: Option<String>)
    requires
        users_readable(text@),
    ensures
        view_of(users) == users_of(text@),
{
    let found = lines(text);
    let ghost all = lines_of(text@);
    let ghost pick = |line: Seq<char>| profile_of(line);
    let mut profiles: Vec<String> = Vec::new();
    let mut i: usize = 0;
    proof {
        assert(all.take(0).filter_map(pick) =~= Seq::<Seq<char>>::empty());
        assert(views(profiles@) =~= Seq::<Seq<char>>::empty());
    }
    while i < found.len()
        invariant
            all == lines_of(text@),
            users_readable(text@),
            str_views(found@) == all,
            pick == (|line: Seq<char>| profile_of(line)),
            i <= found.len(),
            views(profiles@) == all.take(i as int).filter_map(pick),
        decreases found.len() - i,
    {
        let ghost before = profiles@;
        proof {
            assert(found@[i as int]@ == str_views(found@)[i as int]);
            assert(all.take(i + 1).drop_last() =~= all.take(i as int));
            assert(all.take(i + 1).last() == all[i as int]);
        }
        match read_profile(found[i]) {
            Some(profile) => {
                profiles.push(profile);
                proof {
                    assert(views(profiles@) =~= views(before).push(profile@));
                }
            },
            None => {},
        }
        i += 1;
    }
    proof {
        assert(all.take(all.len() as int) =~= all);
        assert(views(profiles@).len() == profiles@.len());
    }
    if profiles.len() > 1 {
        let mut users = "Users: ".to_owned();
        users.append(join(&profiles, ", ").as_str());
        Some(users)
    } else {
        None
    }
}

/// What is shown of the users, by the output of the command that lists them: nothing, where the
/// command could not be run or failed.
pub fn get_device_users(output: Option<&CommandOutput>) -> (users: Result<
    Option<String>,
    DeviceError,
>)
    ensures
        match users {
            Ok(users) => users_by_output(output) == Ok::<_, DeviceError>(view_of(users)),
            Err(e) => users_by_output(output) == Err::<Option<Seq<char>>, _>(e),
        },
        output is Some && output->0.success ==> taken_as_it_stands(*output->0),
{
    match output {
        Some(output) => {
            if !output.success {
                return Ok(None);
            }
            let text = lossy_text(output.stdout.as_slice());
            if check_users(text.as_str()) {
                Ok(users_from_text(text.as_str()))
            } else {
                Err(DeviceError::BracesReversed)
            }
        },
        None => Ok(None),
    }
}

/// The name of a device whose `device_name` setting reads `text`.
pub fn name_from_text(serial: &str, text: &str) -> (name: String)
    ensures
        name@ == name_of(serial@, text@),
{
    let name = trim(text);
    if same(name, "null") || name.is_empty() {
        serial.to_owned()
    } else {
        name.to_owned()
    }
}

/// Line `i` of the properties `text`, or `Unknown` where there are fewer lines.
pub fn property_from_text(text: &str, i: usize) -> (property: String)
    ensures
        property@ == property_of(text@, i as int),
{
    let props = split(trim(text), '\n');
    proof {
        assert(str_views(props@).len() == props@.len());
    }
    if i < props.len() {
        proof {
            assert(str_views(props@)[i as int] == props@[i as int]@);
        }
        trim(props[i]).to_owned()
    } else {
        "Unknown".to_owned()
    }
}

/// What is known of the device `serial`, by the outputs of the commands that ask for its name, its
/// properties and its users. Whether the first two commands reported success makes no difference.
pub fn get_device_info(
    serial: &str,
    name: Option<&CommandOutput>,
    props: Option<&CommandOutput>,
    users: Option<&CommandOutput>,
) -> (info: Result<DeviceInfo, DeviceError>)
    ensures
        match info {
            Ok(info) => users_by_output(users) == Ok::<_, DeviceError>(info@.users) && info@
                == info_by_outputs(serial@, name, props, info@.users),
            Err(e) => users_by_output(users) == Err::<Option<Seq<char>>, _>(e),
        },
        name is Some ==> taken_as_it_stands(*name->0),
        props is Some ==> taken_as_it_stands(*props->0),
        users is Some && users->0.success ==> taken_as_it_stands(*users->0),
{
    let name = match name {
        Some(output) => {
            let text = lossy_text(output.stdout.as_slice());
            name_from_text(serial, text.as_str())
        },
        None => serial.to_owned(),
    };
    let (fingerprint, release, sdk) = match props {
        Some(output) => {
            let text = lossy_text(output.stdout.as_slice());
            (
                property_from_text(text.as_str(), 0),
                property_from_text(text.as_str(), 1),
                property_from_text(text.as_str(), 2),
            )
        },
        None => (
            "Could not retrieve properties".to_owned(),
            "Unknown".to_owned(),
            "Unknown".to_owned(),
        ),
    };
    match get_device_users(users) {
        Ok(users) => Ok(
            DeviceInfo {
                serial: serial.to_owned(),
                name,
                fingerprint,
                release,
                sdk,
                users,
                loading: false,
            },
        ),
        Err(e) => Err(e),
    }
}

impl DeviceInfo {
    /// A device that has been announced and of which nothing else is known yet.
    pub fn announced(serial: &String) -> (info: DeviceInfo)
        ensures
            info@ == placeholder(serial@),
            info.serial == *serial,
    {
        DeviceInfo {
            serial: serial.clone(),
            name: serial.clone(),
            fingerprint: String::new(),
            release: String::new(),
            sdk: String::new(),
            users: None,
            loading: true,
        }
    }
}

/// The arguments with which `adb` tells the name of the device `serial`.
pub fn name_args(serial: &str) -> (args: Vec<String>)
    ensures
        views(args@) == seq![
            "-s"@,
            serial@,
            "shell"@,
            "settings"@,
            "get"@,
            "global"@,
            "device_name"@,
        ],
{
    let args = vec![
        "-s".to_owned(),
        serial.to_owned(),
        "shell".to_owned(),
        "settings".to_owned(),
        "get".to_owned(),
        "global".to_owned(),
        "device_name".to_owned(),
    ];
    args
}

/// The arguments with which `adb` tells the properties of the device `serial`, one on each line:
/// the build fingerprint, the release and the SDK.
pub fn props_args(serial: &str) -> (args: Vec<String>)
    ensures
        views(args@) == seq![
            "-s"@,
            serial@,
            "shell"@,
            "getprop ro.product.build.fingerprint && getprop ro.build.version.release && getprop ro.build.version.sdk"@,
        ],
{
    let args = vec![
        "-s".to_owned(),
        serial.to_owned(),
        "shell".to_owned(),
        "getprop ro.product.build.fingerprint && getprop ro.build.version.release && getprop ro.build.version.sdk".to_owned(),
    ];
    args
}

/// The arguments with which `adb` lists the users of the device `serial`.
pub fn users_args(serial: &str) -> (args: Vec<String>)
    ensures
        views(args@) == seq!["-s"@, serial@, "shell"@, "pm list users"@],
{
    let args = vec![
        "-s".to_owned(),
        serial.to_owned(),
        "shell".to_owned(),
        "pm list users".to_owned(),
    ];
    args
}

/// Whether `line` has both braces, the first `}` before the first `{`.
pub open spec fn braces_reversed(line: Seq<char>) -> bool {
    &&& position(line, '{') is Some
    &&& position(line, '}') is Some
    &&& position(line, '}')->0 < position(line, '{')->0
}

/// The users cannot be read exactly where the command that lists them succeeded and some line of
/// its output has both braces, with the first `}` before the first `{`.
pub proof fn law_when_users_cannot_be_read(output: Option<&CommandOutput>)
    ensures
        users_by_output(output) is Err <==> output is Some && output->0.success && exists|i: int|
            0 <= i < lines_of(utf8_lossy(output->0.stdout@)).len() && braces_reversed(
                #[trigger] lines_of(utf8_lossy(output->0.stdout@))[i],
            ),
{
    if output is Some && output->0.success {
        let text = utf8_lossy(output->0.stdout@);
        let found = lines_of(text);
        if !users_readable(text) {
            let i = choose|i: int| 0 <= i < found.len() && !braces_in_order(#[trigger] found[i]);
            lemma_position(found[i], '{');
            lemma_position(found[i], '}');
            assert(braces_reversed(found[i]));
        }
    }
}

/// A line of the user list.
pub enum UserLine {
    /// One that describes a profile between its braces, by an id, a name and perhaps more.
    Profile {
        before: Seq<char>,
        id: Seq<char>,
        name: Seq<char>,
        more: Option<Seq<char>>,
        behind: Seq<char>,
    },
    /// One with nothing to tell an id from a name between its braces.
    Bare { before: Seq<char>, inner: Seq<char>, behind: Seq<char> },
    /// One without an opening or without a closing brace.
    Other(Seq<char>),
}

/// What stands behind the colon after the id: the name, and more behind a second colon.
pub open spec fn fields_behind_id(name: Seq<char>, more: Option<Seq<char>>) -> Seq<char> {
    match more {
        Some(more) => name + seq![':'] + more,
        None => name,
    }
}

/// The text of a line of the user list.
pub open spec fn line_text(line: UserLine) -> Seq<char> {
    match line {
        UserLine::Profile { before, id, name, more, behind } => before + seq!['{'] + (id
            + seq![':'] + fields_behind_id(name, more)) + seq!['}'] + behind,
        UserLine::Bare { before, inner, behind } => before + seq!['{'] + inner + seq!['}'] + behind,
        UserLine::Other(text) => text,
    }
}

/// Whether a line of the user list can be told apart into what it is made of.
pub open spec fn is_user_line(line: UserLine) -> bool {
    match line {
        UserLine::Profile { before, id, name, more, behind } => {
            &&& !before.contains('{') && !before.contains('}')
            &&& !id.contains(':') && !id.contains('}')
            &&& !name.contains(':') && !name.contains('}')
            &&& more is Some ==> !more->0.contains('}')
        },
        UserLine::Bare { before, inner, behind } => {
            &&& !before.contains('{') && !before.contains('}')
            &&& !inner.contains(':') && !inner.contains('}')
        },
        UserLine::Other(text) => !text.contains('{') || !text.contains('}'),
    }
}

/// The profile that a line of the user list is made for.
pub open spec fn profile_on(line: UserLine) -> Option<Seq<char>> {
    match line {
        UserLine::Profile { id, name, .. } => Some(
            trimmed(id) + " ("@ + trimmed(name) + ")"@,
        ),
        _ => None,
    }
}

/// The profile on a line of the user list is read back, whatever stands around the braces and in
/// the fields behind the name.
pub proof fn law_profile_read_back(line: UserLine)
    requires
        is_user_line(line),
    ensures
        braces_in_order(line_text(line)),
        profile_of(line_text(line)) == profile_on(line),
{
    match line {
        UserLine::Profile { before, id, name, more, behind } => {
            lemma_profile_read_back(before, id, name, more, behind);
        },
        UserLine::Bare { before, inner, behind } => {
            let text = line_text(line);
            let start = before.len() as int;
            let end = start + 1 + inner.len();
            assert forall|j: int| 0 <= j < start implies text[j] != '{' && text[j] != '}' by {
                assert(text[j] == before[j]);
                assert(before.contains(before[j]));
            }
            assert(text[start] == '{');
            assert(text[end] == '}');
            assert forall|j: int| start < j < end implies text[j] != '}' by {
                assert(text[j] == inner[j - start - 1]);
                assert(inner.contains(inner[j - start - 1]));
            }
            lemma_position_at(text, '{', start);
            lemma_position_at(text, '}', end);
            assert(text.subrange(start + 1, end) =~= inner);
            lemma_position(inner, ':');
        },
        UserLine::Other(text) => {
            lemma_position(text, '{');
            lemma_position(text, '}');
            if position(text, '{') is Some && position(text, '}') is Some {
                assert(text.contains(text[position(text, '{')->0]));
                assert(text.contains(text[position(text, '}')->0]));
            }
        },
    }
}

/// The profile on a line is read back.
proof fn lemma_profile_read_back(
    before: Seq<char>,
    id: Seq<char>,
    name: Seq<char>,
    more: Option<Seq<char>>,
    behind: Seq<char>,
)
    requires
        is_user_line(UserLine::Profile { before, id, name, more, behind }),
    ensures
        braces_in_order(line_text(UserLine::Profile { before, id, name, more, behind })),
        profile_of(line_text(UserLine::Profile { before, id, name, more, behind })) == Some(
            trimmed(id) + " ("@ + trimmed(name) + ")"@,
        ),
{
    let line = line_text(UserLine::Profile { before, id, name, more, behind });
    let tail = fields_behind_id(name, more);
    let inner = id + seq![':'] + tail;
    let start = before.len() as int;
    let end = start + 1 + inner.len();
    assert forall|j: int| 0 <= j < start implies line[j] != '{' && line[j] != '}' by {
        assert(line[j] == before[j]);
        assert(before.contains(before[j]));
    }
    assert(line[start] == '{');
    assert(line[end] == '}');
    assert forall|j: int| start < j < end implies line[j] != '}' by {
        let k = j - start - 1;
        assert(line[j] == inner[k]);
        if k < id.len() {
            assert(id.contains(id[k]));
        } else if k > id.len() {
            let m = k - id.len() - 1;
            assert(inner[k] == tail[m]);
            if m < name.len() {
                assert(name.contains(name[m]));
            } else if m > name.len() {
                assert(more->0.contains(more->0[m - name.len() - 1]));
            }
        }
    }
    lemma_position_at(line, '{', start);
    lemma_position_at(line, '}', end);
    assert(line.subrange(start + 1, end) =~= inner);
    assert forall|j: int| 0 <= j < id.len() implies inner[j] != ':' by {
        assert(id.contains(id[j]));
    }
    lemma_position_at(inner, ':', id.len() as int);
    assert(inner.take(id.len() as int) =~= id);
    assert(inner.skip(id.len() as int + 1) =~= tail);
    if more is Some {
        assert forall|j: int| 0 <= j < name.len() implies tail[j] != ':' by {
            assert(name.contains(name[j]));
        }
        lemma_position_at(tail, ':', name.len() as int);
        assert(tail.take(name.len() as int) =~= name);
    } else {
        lemma_position(tail, ':');
    }
    assert(split_on(tail, ':')[0] == name);
    assert(split_on(inner, ':') == seq![id] + split_on(tail, ':'));
    assert(split_on(inner, ':')[1] == name);
}

/// A carriage return at the end of a line does not matter to the profile on it.
proof fn lemma_profile_without_cr(line: UserLine)
    requires
        is_user_line(line),
    ensures
        braces_in_order(without_cr(line_text(line))),
        profile_of(without_cr(line_text(line))) == profile_on(line),
{
    let text = line_text(line);
    let short = match line {
        UserLine::Profile { before, id, name, more, behind } => UserLine::Profile {
            before,
            id,
            name,
            more,
            behind: without_cr(behind),
        },
        UserLine::Bare { before, inner, behind } => UserLine::Bare {
            before,
            inner,
            behind: without_cr(behind),
        },
        UserLine::Other(text) => UserLine::Other(without_cr(text)),
    };
    match line {
        UserLine::Profile { behind, .. } => {
            if behind.len() > 0 {
                assert(text.last() == behind.last());
            } else {
                assert(text.last() == '}');
            }
            assert(without_cr(text) =~= line_text(short));
        },
        UserLine::Bare { behind, .. } => {
            if behind.len() > 0 {
                assert(text.last() == behind.last());
            } else {
                assert(text.last() == '}');
            }
            assert(without_cr(text) =~= line_text(short));
        },
        UserLine::Other(text) => {
            let cut = without_cr(text);
            if cut.contains('{') {
                let i = choose|i: int| 0 <= i < cut.len() && cut[i] == '{';
                assert(text[i] == '{');
            }
            if cut.contains('}') {
                let i = choose|i: int| 0 <= i < cut.len() && cut[i] == '}';
                assert(text[i] == '}');
            }
        },
    }
    law_profile_read_back(short);
}

/// What is read from the lines of a user list.
proof fn lemma_profiles_read_back(lines: Seq<UserLine>)
    requires
        forall|i: int| 0 <= i < lines.len() ==> is_user_line(#[trigger] lines[i]),
    ensures
        lines.map_values(|l: UserLine| without_cr(line_text(l))).filter_map(
            |line: Seq<char>| profile_of(line),
        ) == lines.filter_map(|l: UserLine| profile_on(l)),
    decreases lines.len(),
{
    let texts = lines.map_values(|l: UserLine| without_cr(line_text(l)));
    if lines.len() > 0 {
        let before = lines.drop_last();
        assert forall|i: int| 0 <= i < before.len() implies is_user_line(#[trigger] before[i]) by {
            assert(before[i] == lines[i]);
        }
        lemma_profiles_read_back(before);
        assert(texts.drop_last() =~= before.map_values(
            |l: UserLine| without_cr(line_text(l)),
        ));
        assert(is_user_line(lines[lines.len() - 1]));
        lemma_profile_without_cr(lines.last());
    }
}

/// A user list gives back the profiles on its lines, in order, and they are shown where there is
/// more than one.
pub proof fn law_user_list_read_back(lines: Seq<UserLine>)
    requires
        forall|i: int|
            0 <= i < lines.len() ==> is_user_line(#[trigger] lines[i]) && !line_text(
                lines[i],
            ).contains('\n'),
    ensures
        ({
            let text = text_of(lines.map_values(|l: UserLine| line_text(l)));
            let profiles = lines.filter_map(|l: UserLine| profile_on(l));
            &&& users_readable(text)
            &&& profiles_of(text) == profiles
            &&& users_of(text) == if profiles.len() > 1 {
                Some("Users: "@ + joined(profiles, ", "@))
            } else {
                None
            }
        }),
{
    let texts = lines.map_values(|l: UserLine| line_text(l));
    assert forall|i: int| 0 <= i < texts.len() implies !(#[trigger] texts[i]).contains('\n') by {
        assert(texts[i] == line_text(lines[i]));
    }
    law_lines_read_back(texts);
    let read = lines_of(text_of(texts));
    assert(read =~= lines.map_values(|l: UserLine| without_cr(line_text(l))));
    lemma_profiles_read_back(lines);
    assert forall|i: int| 0 <= i < read.len() implies braces_in_order(#[trigger] read[i]) by {
        assert(is_user_line(lines[i]));
        lemma_profile_without_cr(lines[i]);
    }
}

/// What is read of the users of a device. Where the command could not be run or failed, nothing is.
/// Else, where every line of its output is one of a user list, the profiles on them are, by id and
/// name, in order and with a comma between each two; but nothing, where there is at most one.
pub proof fn law_users_read(output: &CommandOutput, lines: Seq<UserLine>)
    requires
        lines_of(utf8_lossy(output.stdout@)) == lines.map_values(|l: UserLine| line_text(l)),
        forall|i: int| 0 <= i < lines.len() ==> is_user_line(#[trigger] lines[i]),
    ensures
        users_by_output(None) == Ok::<Option<Seq<char>>, DeviceError>(None),
        !output.success ==> users_by_output(Some(output)) == Ok::<Option<Seq<char>>, DeviceError>(
            None,
        ),
        ({
            let profiles = lines.filter_map(
                |l: UserLine|
                    match l {
                        UserLine::Profile { id, name, .. } => Some(
                            trimmed(id) + seq![' ', '('] + trimmed(name) + seq![')'],
                        ),
                        _ => None,
                    },
            );
            &&& output.success && profiles.len() <= 1 ==> users_by_output(Some(output)) == Ok::<
                Option<Seq<char>>,
                DeviceError,
            >(None)
            &&& output.success && profiles.len() > 1 ==> users_by_output(Some(output)) == Ok::<
                Option<Seq<char>>,
                DeviceError,
            >(Some(seq!['U', 's', 'e', 'r', 's', ':', ' '] + joined(profiles, seq![',', ' '])))
        }),
{
    let text = utf8_lossy(output.stdout@);
    let found = lines_of(text);
    let pick = |l: UserLine|
        match l {
            UserLine::Profile { id, name, .. } => Some(
                trimmed(id) + seq![' ', '('] + trimmed(name) + seq![')'],
            ),
            _ => None,
        };
    assert forall|i: int| 0 <= i < found.len() implies braces_in_order(#[trigger] found[i]) by {
        assert(found[i] == line_text(lines[i]));
        law_profile_read_back(lines[i]);
    }
    lemma_lines_profiles(lines, pick);
    reveal_strlit("Users: ");
    reveal_strlit(", ");
    assert("Users: "@ =~= seq!['U', 's', 'e', 'r', 's', ':', ' ']);
    assert(", "@ =~= seq![',', ' ']);
}

/// The profiles on lines of a user list.
proof fn lemma_lines_profiles(
    lines: Seq<UserLine>,
    pick: spec_fn(UserLine) -> Option<Seq<char>>,
)
    requires
        forall|i: int| 0 <= i < lines.len() ==> is_user_line(#[trigger] lines[i]),
        pick == (|l: UserLine|
            match l {
                UserLine::Profile { id, name, .. } => Some(
                    trimmed(id) + seq![' ', '('] + trimmed(name) + seq![')'],
                ),
                _ => None,
            }),
    ensures
        lines.map_values(|l: UserLine| line_text(l)).filter_map(
            |line: Seq<char>| profile_of(line),
        ) == lines.filter_map(pick),
    decreases lines.len(),
{
    let texts = lines.map_values(|l: UserLine| line_text(l));
    if lines.len() > 0 {
        let before = lines.drop_last();
        assert forall|i: int| 0 <= i < before.len() implies is_user_line(#[trigger] before[i]) by {
            assert(before[i] == lines[i]);
        }
        lemma_lines_profiles(before, pick);
        assert(texts.drop_last() =~= before.map_values(|l: UserLine| line_text(l)));
        assert(is_user_line(lines[lines.len() - 1]));
        law_profile_read_back(lines.last());
        reveal_strlit(" (");
        reveal_strlit(")");
        assert(" ("@ =~= seq![' ', '(']);
        assert(")"@ =~= seq![')']);
        assert(profile_of(line_text(lines.last())) == pick(lines.last()));
    }
}

/// A user list that was written in UTF-8, each line with a line feed behind it, is read as it
/// stands.
pub proof fn law_written_users_are_read(output: &CommandOutput, lines: Seq<UserLine>)
    requires
        output.success,
        taken_as_it_stands(*output),
        output.stdout@ == encode_utf8(text_of(lines.map_values(|l: UserLine| line_text(l)))),
        forall|i: int|
            0 <= i < lines.len() ==> is_user_line(#[trigger] lines[i]) && !line_text(
                lines[i],
            ).contains('\n'),
    ensures
        ({
            let profiles = lines.filter_map(
                |l: UserLine|
                    match l {
                        UserLine::Profile { id, name, .. } => Some(
                            trimmed(id) + seq![' ', '('] + trimmed(name) + seq![')'],
                        ),
                        _ => None,
                    },
            );
            &&& profiles.len() <= 1 ==> users_by_output(Some(output)) == Ok::<
                Option<Seq<char>>,
                DeviceError,
            >(None)
            &&& profiles.len() > 1 ==> users_by_output(Some(output)) == Ok::<_, DeviceError>(
                Some(seq!['U', 's', 'e', 'r', 's', ':', ' '] + joined(profiles, seq![',', ' '])),
            )
        }),
{
    let text = text_of(lines.map_values(|l: UserLine| line_text(l)));
    encode_utf8_valid_utf8(text);
    encode_utf8_decode_utf8(text);
    law_user_list_read_back(lines);
    let pick = |l: UserLine|
        match l {
            UserLine::Profile { id, name, .. } => Some(
                trimmed(id) + seq![' ', '('] + trimmed(name) + seq![')'],
            ),
            _ => None,
        };
    lemma_lines_profiles(lines, pick);
    lemma_same_picks(lines, |l: UserLine| profile_on(l), pick);
    reveal_strlit("Users: ");
    reveal_strlit(", ");
    assert("Users: "@ =~= seq!['U', 's', 'e', 'r', 's', ':', ' ']);
    assert(", "@ =~= seq![',', ' ']);
}

/// Two ways to say which profile is on a line.
proof fn lemma_same_picks(
    lines: Seq<UserLine>,
    f: spec_fn(UserLine) -> Option<Seq<char>>,
    g: spec_fn(UserLine) -> Option<Seq<char>>,
)
    requires
        f == (|l: UserLine| profile_on(l)),
        g == (|l: UserLine|
            match l {
                UserLine::Profile { id, name, .. } => Some(
                    trimmed(id) + seq![' ', '('] + trimmed(name) + seq![')'],
                ),
                _ => None,
            }),
    ensures
        lines.filter_map(f) == lines.filter_map(g),
    decreases lines.len(),
{
    if lines.len() > 0 {
        lemma_same_picks(lines.drop_last(), f, g);
        reveal_strlit(" (");
        reveal_strlit(")");
        assert(" ("@ =~= seq![' ', '(']);
        assert(")"@ =~= seq![')']);
        assert(f(lines.last()) == g(lines.last()));
    }
}

/// The name of a device is what its setting says between blank text, character for character, and
/// its serial number where that is nothing or `null`, or where the command could not be run.
pub proof fn law_name_read(
    serial: Seq<char>,
    output: &CommandOutput,
    props: Option<&CommandOutput>,
    users: Option<Seq<char>>,
    before: Seq<char>,
    name: Seq<char>,
    behind: Seq<char>,
)
    requires
        utf8_lossy(output.stdout@) == before + name + behind,
        is_blank(before),
        is_blank(behind),
        name.len() > 0 ==> !is_white_space(name[0]) && !is_white_space(name.last()),
    ensures
        name.len() > 0 && name != seq!['n', 'u', 'l', 'l'] ==> info_by_outputs(
            serial,
            Some(output),
            props,
            users,
        ).name == name,
        name.len() == 0 || name == seq!['n', 'u', 'l', 'l'] ==> info_by_outputs(
            serial,
            Some(output),
            props,
            users,
        ).name == serial,
        info_by_outputs(serial, None, props, users).name == serial,
{
    law_trim_takes_blanks(before, name, behind);
    reveal_strlit("null");
    assert("null"@ =~= seq!['n', 'u', 'l', 'l']);
}

/// The properties of a device are the lines of the output, each without the blanks around it: the
/// fingerprint, the release and the SDK, in this order. Where there is no such line they are
/// unknown.
pub proof fn law_properties_read(
    serial: Seq<char>,
    name: Option<&CommandOutput>,
    output: &CommandOutput,
    users: Option<Seq<char>>,
    before: Seq<char>,
    lines: Seq<Seq<char>>,
    behind: Seq<char>,
)
    requires
        utf8_lossy(output.stdout@) == before + joined(lines, seq!['\n']) + behind,
        is_blank(before),
        is_blank(behind),
        lines.len() > 0,
        forall|i: int| 0 <= i < lines.len() ==> !(#[trigger] lines[i]).contains('\n'),
        lines[0].len() > 0 && !is_white_space(lines[0][0]),
        lines.last().len() > 0 && !is_white_space(lines.last().last()),
    ensures
        ({
            let info = info_by_outputs(serial, name, Some(output), users);
            let unknown = seq!['U', 'n', 'k', 'n', 'o', 'w', 'n'];
            &&& info.fingerprint == trimmed(lines[0])
            &&& info.release == if lines.len() > 1 {
                trimmed(lines[1])
            } else {
                unknown
            }
            &&& info.sdk == if lines.len() > 2 {
                trimmed(lines[2])
            } else {
                unknown
            }
        }),
        forall|i: int|
            0 <= i < lines.len() ==> #[trigger] property_of(utf8_lossy(output.stdout@), i)
                == trimmed(lines[i]),
        forall|i: int|
            i >= lines.len() ==> #[trigger] property_of(utf8_lossy(output.stdout@), i) == seq![
                'U',
                'n',
                'k',
                'n',
                'o',
                'w',
                'n',
            ],
{
    let body = joined(lines, seq!['\n']);
    lemma_joined_ends(lines, seq!['\n']);
    law_trim_takes_blanks(before, body, behind);
    law_join_splits_again(lines, '\n');
    reveal_strlit("Unknown");
    assert("Unknown"@ =~= seq!['U', 'n', 'k', 'n', 'o', 'w', 'n']);
}

/// Three properties that are written each on a line of its own are read back, character for
/// character.
pub proof fn law_properties_read_back(
    serial: Seq<char>,
    name: Option<&CommandOutput>,
    output: &CommandOutput,
    users: Option<Seq<char>>,
    fingerprint: Seq<char>,
    release: Seq<char>,
    sdk: Seq<char>,
)
    requires
        utf8_lossy(output.stdout@) == fingerprint + seq!['\n'] + release + seq!['\n'] + sdk
            + seq!['\n'],
        !fingerprint.contains('\n') && !release.contains('\n') && !sdk.contains('\n'),
        fingerprint.len() > 0 && !is_white_space(fingerprint[0]) && !is_white_space(
            fingerprint.last(),
        ),
        release.len() > 0 ==> !is_white_space(release[0]) && !is_white_space(release.last()),
        sdk.len() > 0 && !is_white_space(sdk[0]) && !is_white_space(sdk.last()),
    ensures
        info_by_outputs(serial, name, Some(output), users).fingerprint == fingerprint,
        info_by_outputs(serial, name, Some(output), users).release == release,
        info_by_outputs(serial, name, Some(output), users).sdk == sdk,
        property_of(utf8_lossy(output.stdout@), 0) == fingerprint,
        property_of(utf8_lossy(output.stdout@), 1) == release,
        property_of(utf8_lossy(output.stdout@), 2) == sdk,
{
    let lines = seq![fingerprint, release, sdk];
    let feed = seq!['\n'];
    let none = Seq::<char>::empty();
    law_join(seq![fingerprint], seq![release, sdk], feed);
    law_join(seq![release], seq![sdk], feed);
    law_join(seq![sdk], seq![sdk], feed);
    assert(seq![fingerprint] + seq![release, sdk] =~= lines);
    assert(seq![release] + seq![sdk] =~= seq![release, sdk]);
    assert(none + joined(lines, feed) + feed =~= utf8_lossy(output.stdout@));
    law_properties_read(serial, name, output, users, none, lines, feed);
    law_trim_takes_blanks(none, fingerprint, none);
    law_trim_takes_blanks(none, release, none);
    law_trim_takes_blanks(none, sdk, none);
    assert(none + fingerprint + none =~= fingerprint);
    assert(none + release + none =~= release);
    assert(none + sdk + none =~= sdk);
}

/// Blank output gives an empty fingerprint and nothing else, and a command that could not be run
/// says so in place of the fingerprint.
pub proof fn law_properties_missing(
    serial: Seq<char>,
    name: Option<&CommandOutput>,
    output: &CommandOutput,
    users: Option<Seq<char>>,
)
    requires
        is_blank(utf8_lossy(output.stdout@)),
    ensures
        ({
            let blank = info_by_outputs(serial, name, Some(output), users);
            let none = info_by_outputs(serial, name, None, users);
            &&& blank.fingerprint == Seq::<char>::empty()
            &&& blank.release == "Unknown"@ && blank.sdk == "Unknown"@
            &&& none.fingerprint == "Could not retrieve properties"@
            &&& none.release == "Unknown"@ && none.sdk == "Unknown"@
        }),
        property_of(utf8_lossy(output.stdout@), 0) == Seq::<char>::empty(),
        forall|i: int|
            i > 0 ==> #[trigger] property_of(utf8_lossy(output.stdout@), i) == "Unknown"@,
{
    let text = utf8_lossy(output.stdout@);
    let none = Seq::<char>::empty();
    law_trim_takes_blanks(text, none, none);
    assert(text + none + none =~= text);
    lemma_position(none, '\n');
    assert(split_on(none, '\n') =~= seq![none]);
}

/// What is known of a device is under its own serial number and with the users that were read of
/// it. Before any answer it is loading, and its serial number is its name; after the answers it is
/// not loading.
pub proof fn law_what_is_known(
    serial: Seq<char>,
    name: Option<&CommandOutput>,
    props: Option<&CommandOutput>,
    users: Option<Seq<char>>,
)
    ensures
        info_by_outputs(serial, name, props, users).serial == serial,
        info_by_outputs(serial, name, props, users).users == users,
        !info_by_outputs(serial, name, props, users).loading,
        placeholder(serial).serial == serial,
        placeholder(serial).name == serial,
        placeholder(serial).loading,
        placeholder(serial).users is None,
        placeholder(serial).fingerprint.len() == 0,
        placeholder(serial).release.len() == 0,
        placeholder(serial).sdk.len() == 0,
{
}

} // verus!
