//! The device picker: what it holds, and how keys and news of devices change it.

use vstd::prelude::*;
use crate::device::{placeholder, DeviceInfo, DeviceView};
use crate::laws::{law_events_keep_well_formed, law_start_is_well_formed};
use crate::text::{view_of, views};

verus! {

/// A key, as far as the picker tells keys apart.
#[derive(Clone, Copy, Debug, PartialEq, Eq, Structural)]
pub enum Key {
    Up,
    Down,
    Left,
    Right,
    Enter,
    Esc,
    Char(char),
    Other,
}

/// A key, and whether Control was held with it.
#[derive(Clone, Copy, Debug, PartialEq, Eq, Structural)]
pub struct KeyPress {
    pub key: Key,
    pub control: bool,
}

/// What the picker reacts to.
#[derive(Clone, Debug)]
pub enum AppEvent {
    Key(KeyPress),
    /// The serial numbers of all devices that are connected now.
    NewDevices(Vec<String>),
    /// What was found out about the device with the serial number.
    ResolvedInfo(String, DeviceInfo),
}

/// What the picker is asking for.
#[derive(Clone, Debug)]
pub enum AppState {
    SelectingDevice,
    ConfirmAbort {
        current_serial: Option<String>,
        /// 0 keeps the current serial number, 1 clears it.
        selected_option: usize,
    },
}

/// The device picker.
#[derive(Clone, Debug)]
pub struct Picker {
    pub devices: Vec<DeviceInfo>,
    pub active_serials: Vec<String>,
    pub selected: Option<usize>,
    pub state: AppState,
}

/// What there is to do after an event.
#[derive(Clone, Debug)]
pub enum Step {
    /// Wait for the next event.
    Wait,
    /// Ask for the properties of these devices, then wait for the next event.
    LookUp(Vec<String>),
    /// Leave, with the serial number to be printed, if any.
    Exit(Option<String>),
}

/// What an `AppState` holds.
pub enum StateView {
    Selecting,
    Confirming { current: Option<Seq<char>>, option: usize },
}

impl View for AppState {
    type V = StateView;

    open spec fn view(&self) -> StateView {
        match *self {
            AppState::SelectingDevice => StateView::Selecting,
            AppState::ConfirmAbort { current_serial, selected_option } => StateView::Confirming {
                current: view_of(current_serial),
                option: selected_option,
            },
        }
    }
}

/// What a `Picker` holds.
pub struct PickerView {
    pub devices: Seq<DeviceView>,
    pub active: Seq<Seq<char>>,
    pub selected: Option<usize>,
    pub state: StateView,
}

/// What the devices of a vector hold.
pub open spec fn device_views(devices: Seq<DeviceInfo>) -> Seq<DeviceView> {
    devices.map_values(|d: DeviceInfo| d@)
}

impl View for Picker {
    type V = PickerView;

    open spec fn view(&self) -> PickerView {
        PickerView {
            devices: device_views(self.devices@),
            active: views(self.active_serials@),
            selected: self.selected,
            state: self.state@,
        }
    }
}

/// What an `AppEvent` holds.
pub enum EventView {
    Key(KeyPress),
    NewDevices(Seq<Seq<char>>),
    ResolvedInfo(Seq<char>, DeviceView),
}

impl View for AppEvent {
    type V = EventView;

    open spec fn view(&self) -> EventView {
        match *self {
            AppEvent::Key(press) => EventView::Key(press),
            AppEvent::NewDevices(serials) => EventView::NewDevices(views(serials@)),
            AppEvent::ResolvedInfo(serial, info) => EventView::ResolvedInfo(serial@, info@),
        }
    }
}

/// What a `Step` holds.
pub enum StepView {
    Wait,
    LookUp(Seq<Seq<char>>),
    Exit(Option<Seq<char>>),
}

impl View for Step {
    type V = StepView;

    open spec fn view(&self) -> StepView {
        match *self {
            Step::Wait => StepView::Wait,
            Step::LookUp(serials) => StepView::LookUp(views(serials@)),
            Step::Exit(serial) => StepView::Exit(view_of(serial)),
        }
    }
}

/// The picker at its start: no device is known, and the first place of the list is selected.
pub open spec fn initial() -> PickerView {
    PickerView {
        devices: Seq::empty(),
        active: Seq::empty(),
        selected: Some(0),
        state: StateView::Selecting,
    }
}

/// The selection one place further up in a list of `n`, from the top to the bottom.
pub open spec fn moved_up(selected: Option<usize>, n: nat) -> Option<usize> {
    match selected {
        Some(i) => if i > 0 {
            Some((i - 1) as usize)
        } else if n > 0 {
            Some((n - 1) as usize)
        } else {
            Some(0)
        },
        None => Some(0),
    }
}

/// The selection one place further down in a list of `n`, from the bottom to the top.
pub open spec fn moved_down(selected: Option<usize>, n: nat) -> Option<usize> {
    match selected {
        Some(i) => if i + 1 < n {
            Some((i + 1) as usize)
        } else {
            Some(0)
        },
        None => Some(0),
    }
}

/// The selection after the list has come to hold `n` devices: the last one, where the selection
/// lies beyond it; the first one, where nothing was selected; none in an empty list.
pub open spec fn settled(selected: Option<usize>, n: nat) -> Option<usize> {
    if n == 0 {
        None
    } else {
        match selected {
            Some(i) => if i < n {
                Some(i)
            } else {
                Some((n - 1) as usize)
            },
            None => Some(0),
        }
    }
}

/// Whether the key asks to leave: `q`, Escape, or `c` with Control.
pub open spec fn quits(press: KeyPress) -> bool {
    ||| press.key == Key::Esc
    ||| press.key == Key::Char('q')
    ||| press.key == Key::Char('c') && press.control
}

/// Whether the key moves up.
pub open spec fn goes_up(press: KeyPress) -> bool {
    press.key == Key::Up || press.key == Key::Char('k')
}

/// Whether the key moves down.
pub open spec fn goes_down(press: KeyPress) -> bool {
    press.key == Key::Down || press.key == Key::Char('j')
}

/// Whether the key moves to the left or to the right.
pub open spec fn goes_sideways(press: KeyPress) -> bool {
    ||| press.key == Key::Left
    ||| press.key == Key::Char('h')
    ||| press.key == Key::Right
    ||| press.key == Key::Char('l')
}

/// The word that asks for the serial number to be cleared.
pub open spec fn clear_word() -> Seq<char> {
    "__CLEAR__"@
}

/// The picker after a key, while a device is being selected. `current` is the serial number that
/// is in use so far.
pub open spec fn pressed_selecting(
    p: PickerView,
    press: KeyPress,
    current: Option<Seq<char>>,
) -> (PickerView, StepView) {
    if goes_up(press) {
        (
            PickerView { selected: moved_up(p.selected, p.devices.len()), ..p },
            StepView::Wait,
        )
    } else if goes_down(press) {
        (
            PickerView { selected: moved_down(p.selected, p.devices.len()), ..p },
            StepView::Wait,
        )
    } else if press.key == Key::Enter {
        match p.selected {
            Some(i) if i < p.devices.len() => (
                p,
                StepView::Exit(Some(p.devices[i as int].serial)),
            ),
            _ => (p, StepView::Wait),
        }
    } else if quits(press) {
        if current is Some {
            (
                PickerView { state: StateView::Confirming { current, option: 0 }, ..p },
                StepView::Wait,
            )
        } else {
            (p, StepView::Exit(None))
        }
    } else {
        (p, StepView::Wait)
    }
}

/// The picker after a key, while it asks what to do with the serial number `current`.
pub open spec fn pressed_confirming(
    p: PickerView,
    press: KeyPress,
    current: Option<Seq<char>>,
    option: usize,
) -> (PickerView, StepView) {
    if goes_up(press) || goes_down(press) || goes_sideways(press) {
        let other: usize = if option == 0 {
            1
        } else {
            0
        };
        (
            PickerView { state: StateView::Confirming { current, option: other }, ..p },
            StepView::Wait,
        )
    } else if press.key == Key::Enter && option != 0 {
        (p, StepView::Exit(Some(clear_word())))
    } else if press.key == Key::Enter || quits(press) {
        (p, StepView::Exit(current))
    } else {
        (p, StepView::Wait)
    }
}

/// The picker after a key.
pub open spec fn pressed(p: PickerView, press: KeyPress, current: Option<Seq<char>>) -> (
    PickerView,
    StepView,
) {
    match p.state {
        StateView::Selecting => pressed_selecting(p, press, current),
        StateView::Confirming { current, option } => pressed_confirming(p, press, current, option),
    }
}

/// The serial numbers of `news` that are not known, each once, in order.
pub open spec fn fresh(known: Seq<Seq<char>>, news: Seq<Seq<char>>) -> Seq<Seq<char>>
    decreases news.len(),
{
    if news.len() == 0 {
        Seq::empty()
    } else {
        let before = fresh(known, news.drop_last());
        if known.contains(news.last()) || before.contains(news.last()) {
            before
        } else {
            before.push(news.last())
        }
    }
}

/// The devices that are among `news`.
pub open spec fn kept_devices(devices: Seq<DeviceView>, news: Seq<Seq<char>>) -> Seq<DeviceView> {
    devices.filter(|d: DeviceView| news.contains(d.serial))
}

/// The serial numbers that are among `news`.
pub open spec fn kept_serials(serials: Seq<Seq<char>>, news: Seq<Seq<char>>) -> Seq<Seq<char>> {
    serials.filter(|s: Seq<char>| news.contains(s))
}

/// A placeholder for each serial number.
pub open spec fn placeholders(serials: Seq<Seq<char>>) -> Seq<DeviceView> {
    serials.map_values(|s: Seq<char>| placeholder(s))
}

/// The picker after the devices `news` have been announced as those that are connected: the
/// others leave the list, those that stay keep their places, and those that are new come last.
pub open spec fn announced(p: PickerView, news: Seq<Seq<char>>) -> (PickerView, StepView) {
    let active = kept_serials(p.active, news);
    let added = fresh(active, news);
    let devices = kept_devices(p.devices, news) + placeholders(added);
    (
        PickerView {
            devices,
            active: active + added,
            selected: settled(p.selected, devices.len()),
            ..p
        },
        StepView::LookUp(added),
    )
}

/// The place of the first device with the serial number.
pub open spec fn place_of(devices: Seq<DeviceView>, serial: Seq<char>) -> Option<int>
    decreases devices.len(),
{
    if devices.len() == 0 {
        None
    } else if devices[0].serial == serial {
        Some(0)
    } else {
        match place_of(devices.skip(1), serial) {
            Some(i) => Some(i + 1),
            None => None,
        }
    }
}

/// The picker after `info` has been found out about the device with the serial number.
pub open spec fn resolved(p: PickerView, serial: Seq<char>, info: DeviceView) -> PickerView {
    match place_of(p.devices, serial) {
        Some(i) => PickerView {
            devices: p.devices.update(i, DeviceView { loading: false, ..info }),
            ..p
        },
        None => p,
    }
}

/// The picker after an event, and what there is to do.
pub open spec fn handled(p: PickerView, event: EventView, current: Option<Seq<char>>) -> (
    PickerView,
    StepView,
) {
    match event {
        EventView::Key(press) => pressed(p, press, current),
        EventView::NewDevices(news) => announced(p, news),
        EventView::ResolvedInfo(serial, info) => (resolved(p, serial, info), StepView::Wait),
    }
}

/// The serial numbers of devices.
pub open spec fn serials_of(devices: Seq<DeviceView>) -> Seq<Seq<char>> {
    devices.map_values(|d: DeviceView| d.serial)
}

/// What holds of the picker between events: no serial number is known twice, the list has the
/// known serial numbers in their order, the selection is in the list unless that is empty, and
/// what it asks about is a serial number and one of two options.
pub open spec fn well_formed(p: PickerView) -> bool {
    &&& p.active.no_duplicates()
    &&& serials_of(p.devices) == p.active
    &&& p.devices.len() <= usize::MAX
    &&& match p.selected {
        Some(i) => i < p.devices.len() || p.devices.len() == 0 && i == 0,
        None => p.devices.len() == 0,
    }
    &&& match p.state {
        StateView::Selecting => true,
        StateView::Confirming { current, option } => current is Some && option <= 1,
    }
}

/// Whether the event can come: an answer is about the device that was asked for, and announced
/// devices can be counted.
pub open spec fn sound(event: EventView) -> bool {
    match event {
        EventView::Key(_) => true,
        EventView::NewDevices(news) => news.len() <= usize::MAX,
        EventView::ResolvedInfo(serial, info) => info.serial == serial,
    }
}

/// What `place_of` means.
pub proof fn lemma_place_of(devices: Seq<DeviceView>, serial: Seq<char>)
    ensures
        match place_of(devices, serial) {
            Some(i) => {
                &&& 0 <= i < devices.len()
                &&& devices[i].serial == serial
                &&& forall|j: int| 0 <= j < i ==> devices[j].serial != serial
            },
            None => forall|j: int| 0 <= j < devices.len() ==> devices[j].serial != serial,
        },
    decreases devices.len(),
{
    if devices.len() > 0 && devices[0].serial != serial {
        let rest = devices.skip(1);
        lemma_place_of(rest, serial);
        match place_of(rest, serial) {
            Some(i) => {
                assert forall|j: int| 0 <= j < i + 1 implies devices[j].serial != serial by {
                    if j > 0 {
                        assert(rest[j - 1].serial != serial);
                    }
                }
            },
            None => {
                assert forall|j: int| 0 <= j < devices.len() implies devices[j].serial
                    != serial by {
                    if j > 0 {
                        assert(rest[j - 1].serial != serial);
                    }
                }
            },
        }
    }
}

/// Whether `serial` is among `serials`.
fn is_among(serials: &Vec<String>, serial: &String) -> (yes: bool)
    ensures
        yes == views(serials@).contains(serial@),
{
    let mut i: usize = 0;
    while i < serials.len()
        invariant
            i <= serials.len(),
            forall|j: int| 0 <= j < i ==> views(serials@)[j] != serial@,
        decreases serials.len() - i,
    {
        if serials[i] == *serial {
            proof {
                assert(views(serials@)[i as int] == serial@);
            }
            return true;
        }
        i += 1;
    }
    false
}

/// What is among two sequences together is among one of them.
pub proof fn lemma_among_both(a: Seq<Seq<char>>, b: Seq<Seq<char>>, s: Seq<char>)
    ensures
        (a + b).contains(s) <==> a.contains(s) || b.contains(s),
{
    let both = a + b;
    if both.contains(s) {
        let i = choose|i: int| 0 <= i < both.len() && both[i] == s;
        if i < a.len() {
            assert(a[i] == s);
        } else {
            assert(b[i - a.len()] == s);
        }
    }
    if a.contains(s) {
        let i = choose|i: int| 0 <= i < a.len() && a[i] == s;
        assert(both[i] == s);
    }
    if b.contains(s) {
        let i = choose|i: int| 0 <= i < b.len() && b[i] == s;
        assert(both[a.len() + i] == s);
    }
}

/// The place of the first device with the serial number.
pub(crate) fn find_device(devices: &Vec<DeviceInfo>, serial: &String) -> (place: Option<usize>)
    ensures
        match place {
            Some(i) => i < devices.len() && place_of(device_views(devices@), serial@) == Some(
                i as int,
            ),
            None => place_of(device_views(devices@), serial@) is None,
        },
{
    let ghost known = device_views(devices@);
    let mut i: usize = 0;
    while i < devices.len()
        invariant
            known == device_views(devices@),
            i <= devices.len(),
            forall|j: int| 0 <= j < i ==> known[j].serial != serial@,
        decreases devices.len() - i,
    {
        proof {
            assert(known[i as int] == devices@[i as int]@);
        }
        if devices[i].serial == *serial {
            proof {
                lemma_place_of(known, serial@);
            }
            return Some(i);
        }
        i += 1;
    }
    proof {
        lemma_place_of(known, serial@);
    }
    None
}

/// Whether `held` is `all` with the filter applied to its first `seen` items, of which `i` stayed.
spec fn filtered_so_far<A>(
    all: Seq<A>,
    stays: spec_fn(A) -> bool,
    held: Seq<A>,
    i: int,
    seen: int,
) -> bool {
    &&& 0 <= i <= held.len()
    &&& 0 <= seen <= all.len()
    &&& held.take(i) == all.take(seen).filter(stays)
    &&& held.skip(i) == all.skip(seen)
}

/// Before the first item everything is held.
proof fn lemma_filter_starts<A>(all: Seq<A>, stays: spec_fn(A) -> bool)
    ensures
        filtered_so_far(all, stays, all, 0, 0),
{
    reveal(Seq::filter);
    assert(all.take(0).filter(stays) =~= all.take(0));
}

/// An item that stays is passed, and one that does not is removed.
proof fn lemma_filter_step<A>(
    all: Seq<A>,
    stays: spec_fn(A) -> bool,
    held: Seq<A>,
    i: int,
    seen: int,
)
    requires
        filtered_so_far(all, stays, held, i, seen),
        i < held.len(),
    ensures
        stays(held[i]) ==> filtered_so_far(all, stays, held, i + 1, seen + 1),
        !stays(held[i]) ==> filtered_so_far(all, stays, held.remove(i), i, seen + 1),
{
    reveal(Seq::filter);
    assert(held.skip(i).len() == all.skip(seen).len());
    assert(held.skip(i)[0] == all.skip(seen)[0]);
    assert(held[i] == all[seen]);
    assert(all.take(seen + 1).drop_last() =~= all.take(seen));
    assert(all.take(seen + 1).last() == all[seen]);
    assert(all.skip(seen + 1) =~= all.skip(seen).skip(1));
    assert(held.take(i + 1) =~= held.take(i).push(held[i]));
    assert(held.skip(i + 1) =~= held.skip(i).skip(1));
    assert(held.remove(i).take(i) =~= held.take(i));
    assert(held.remove(i).skip(i) =~= held.skip(i).skip(1));
}

/// After the last item what is held is what the filter leaves.
proof fn lemma_filter_ends<A>(all: Seq<A>, stays: spec_fn(A) -> bool, held: Seq<A>, seen: int)
    requires
        filtered_so_far(all, stays, held, held.len() as int, seen),
    ensures
        held == all.filter(stays),
{
    assert(held.skip(held.len() as int).len() == all.skip(seen).len());
    assert(held.take(held.len() as int) =~= held);
    assert(all.take(seen) =~= all);
}

/// A copy of a string that may be missing.
fn copy_of(s: &Option<String>) -> (r: Option<String>)
    ensures
        view_of(r) == view_of(*s),
{
    match s {
        Some(s) => Some(s.clone()),
        None => None,
    }
}

impl Picker {
    /// The picker at its start.
    pub fn new() -> (picker: Picker)
        ensures
            picker@ == initial(),
            well_formed(picker@),
    {
        let picker = Picker {
            devices: Vec::new(),
            active_serials: Vec::new(),
            selected: Some(0),
            state: AppState::SelectingDevice,
        };
        proof {
            assert(picker@.devices =~= initial().devices);
            assert(picker@.active =~= initial().active);
            law_start_is_well_formed();
        }
        picker
    }

    /// Reacts to a key while a device is being selected. `current` is the serial number that is in
    /// use so far.
    fn press_selecting(&mut self, press: KeyPress, current: Option<String>) -> (step: Step)
        requires
            old(self)@.state is Selecting,
        ensures
            (final(self)@, step@) == pressed_selecting(old(self)@, press, view_of(current)),
    {
        let n: usize = self.devices.len();
        proof {
            assert(self@.devices.len() == n);
        }
        match press.key {
            Key::Up | Key::Char('k') => {
                let i: usize = match self.selected {
                    Some(i) => if i == 0 {
                        n.saturating_sub(1)
                    } else {
                        i - 1
                    },
                    None => 0,
                };
                self.selected = Some(i);
                Step::Wait
            },
            Key::Down | Key::Char('j') => {
                let i: usize = match self.selected {
                    Some(i) => if i >= n.saturating_sub(1) {
                        0
                    } else {
                        i + 1
                    },
                    None => 0,
                };
                self.selected = Some(i);
                Step::Wait
            },
            Key::Enter => {
                match self.selected {
                    Some(i) => {
                        if i < n {
                            return Step::Exit(Some(self.devices[i].serial.clone()));
                        }
                    },
                    None => {},
                }
                Step::Wait
            },
            Key::Char('q') | Key::Esc => self.ask_or_leave(current),
            Key::Char('c') => {
                if press.control {
                    self.ask_or_leave(current)
                } else {
                    Step::Wait
                }
            },
            _ => Step::Wait,
        }
    }

    /// Asks what to do with the serial number that is in use so far, or leaves where there is none.
    fn ask_or_leave(&mut self, current: Option<String>) -> (step: Step)
        ensures
            current is Some ==> final(self)@ == (PickerView {
                state: StateView::Confirming { current: view_of(current), option: 0 },
                ..old(self)@
            }) && step@ == StepView::Wait,
            current is None ==> final(self)@ == old(self)@ && step@ == StepView::Exit(None),
    {
        if current.is_some() {
            self.state = AppState::ConfirmAbort { current_serial: current, selected_option: 0 };
            Step::Wait
        } else {
            Step::Exit(None)
        }
    }

    /// Reacts to a key. `current` is the serial number that is in use so far.
    pub fn press(&mut self, press: KeyPress, current: Option<String>) -> (step: Step)
        ensures
            (final(self)@, step@) == pressed(old(self)@, press, view_of(current)),
            well_formed(old(self)@) ==> well_formed(final(self)@),
    {
        proof {
            if well_formed(self@) {
                law_events_keep_well_formed(self@, EventView::Key(press), view_of(current));
            }
        }
        let (kept, option): (Option<String>, usize) = match &self.state {
            AppState::SelectingDevice => {
                return self.press_selecting(press, current);
            },
            AppState::ConfirmAbort { current_serial, selected_option } => (
                copy_of(current_serial),
                *selected_option,
            ),
        };
        match press.key {
            Key::Up
            | Key::Char('k')
            | Key::Down
            | Key::Char('j')
            | Key::Left
            | Key::Char('h')
            | Key::Right
            | Key::Char('l') => {
                let other: usize = if option == 0 {
                    1
                } else {
                    0
                };
                self.state = AppState::ConfirmAbort { current_serial: kept, selected_option: other };
                Step::Wait
            },
            Key::Enter => {
                if option == 0 {
                    Step::Exit(kept)
                } else {
                    Step::Exit(Some("__CLEAR__".to_owned()))
                }
            },
            Key::Char('q') | Key::Esc => Step::Exit(kept),
            Key::Char('c') => {
                if press.control {
                    Step::Exit(kept)
                } else {
                    Step::Wait
                }
            },
            _ => Step::Wait,
        }
    }

    /// Takes out of the list what is not among `news`.
    fn keep(&mut self, news: &Vec<String>)
        ensures
            final(self)@ == (PickerView {
                devices: kept_devices(old(self)@.devices, views(news@)),
                active: kept_serials(old(self)@.active, views(news@)),
                ..old(self)@
            }),
    {
        let ghost names = views(news@);
        let ghost devices = self@.devices;
        let ghost stays = |d: DeviceView| names.contains(d.serial);
        let ghost before = self@;
        let mut i: usize = 0;
        let ghost mut seen: int = 0;
        proof {
            lemma_filter_starts(devices, stays);
        }
        while i < self.devices.len()
            invariant
                names == views(news@),
                stays == (|d: DeviceView| names.contains(d.serial)),
                self@ == (PickerView { devices: self@.devices, ..before }),
                i <= self.devices.len(),
                filtered_so_far(devices, stays, self@.devices, i as int, seen),
            decreases self.devices.len() - i,
        {
            let ghost held = self@.devices;
            proof {
                assert(held.len() == self.devices.len());
                lemma_filter_step(devices, stays, held, i as int, seen);
                seen = seen + 1;
            }
            if is_among(news, &self.devices[i].serial) {
                i += 1;
            } else {
                self.devices.remove(i);
                proof {
                    assert(self@.devices =~= held.remove(i as int));
                }
            }
        }
        proof {
            assert(self@.devices.len() == self.devices.len());
            lemma_filter_ends(devices, stays, self@.devices, seen);
        }
        self.keep_serials(news);
    }

    /// Takes out of the known serial numbers those that are not among `news`.
    fn keep_serials(&mut self, news: &Vec<String>)
        ensures
            final(self)@ == (PickerView {
                active: kept_serials(old(self)@.active, views(news@)),
                ..old(self)@
            }),
    {
        let ghost names = views(news@);
        let ghost active = self@.active;
        let ghost stays = |s: Seq<char>| names.contains(s);
        let ghost before = self@;
        let mut i: usize = 0;
        let ghost mut seen: int = 0;
        proof {
            lemma_filter_starts(active, stays);
        }
        while i < self.active_serials.len()
            invariant
                names == views(news@),
                stays == (|s: Seq<char>| names.contains(s)),
                self@ == (PickerView { active: self@.active, ..before }),
                i <= self.active_serials.len(),
                filtered_so_far(active, stays, self@.active, i as int, seen),
            decreases self.active_serials.len() - i,
        {
            let ghost held = self@.active;
            proof {
                assert(held.len() == self.active_serials.len());
                lemma_filter_step(active, stays, held, i as int, seen);
                seen = seen + 1;
            }
            if is_among(news, &self.active_serials[i]) {
                i += 1;
            } else {
                self.active_serials.remove(i);
                proof {
                    assert(self@.active =~= held.remove(i as int));
                }
            }
        }
        proof {
            assert(self@.active.len() == self.active_serials.len());
            lemma_filter_ends(active, stays, self@.active, seen);
        }
    }

    /// Takes up the devices `news` as those that are connected now, and tells which are new.
    pub fn announce(&mut self, news: &Vec<String>) -> (added: Vec<String>)
        ensures
            (final(self)@, StepView::LookUp(views(added@))) == announced(old(self)@, views(news@)),
            well_formed(old(self)@) ==> well_formed(final(self)@),
    {
        proof {
            if well_formed(self@) {
                assert(views(news@).len() == news.len());
                law_events_keep_well_formed(self@, EventView::NewDevices(views(news@)), None);
            }
        }
        let ghost names = views(news@);
        let ghost before = self@;
        let ghost active = kept_serials(self@.active, names);
        let ghost devices = kept_devices(self@.devices, names);
        self.keep(news);
        let mut added: Vec<String> = Vec::new();
        let mut i: usize = 0;
        proof {
            assert(names.take(0) =~= Seq::<Seq<char>>::empty());
            assert(views(added@) =~= Seq::<Seq<char>>::empty());
            assert(active + fresh(active, names.take(0)) =~= active);
            assert(devices + placeholders(fresh(active, names.take(0))) =~= devices);
        }
        while i < news.len()
            invariant
                names == views(news@),
                i <= news.len(),
                views(added@) == fresh(active, names.take(i as int)),
                self@ == (PickerView {
                    active: active + views(added@),
                    devices: devices + placeholders(views(added@)),
                    ..before
                }),
            decreases news.len() - i,
        {
            let ghost so_far = views(added@);
            let ghost held = self@;
            proof {
                assert(names.take(i + 1).drop_last() =~= names.take(i as int));
                assert(names.take(i + 1).last() == news@[i as int]@);
                lemma_among_both(active, so_far, news@[i as int]@);
            }
            if !is_among(&self.active_serials, &news[i]) {
                self.active_serials.push(news[i].clone());
                self.devices.push(DeviceInfo::announced(&news[i]));
                added.push(news[i].clone());
                proof {
                    let name = news@[i as int]@;
                    assert(views(added@) =~= so_far.push(name));
                    assert(self@.active =~= held.active.push(name));
                    assert(self@.devices =~= held.devices.push(placeholder(name)));
                    assert(self@.active =~= active + views(added@));
                    assert(self@.devices =~= devices + placeholders(views(added@)));
                }
            }
            i += 1;
        }
        proof {
            assert(names.take(names.len() as int) =~= names);
            assert(self@.devices.len() == self.devices.len());
        }
        match self.selected {
            Some(i) => {
                if i >= self.devices.len() {
                    self.selected = self.devices.len().checked_sub(1);
                }
            },
            None => {
                if self.devices.len() > 0 {
                    self.selected = Some(0);
                }
            },
        }
        added
    }

    /// Takes up what has been found out about the device with the serial number; nothing changes
    /// where it is no longer in the list.
    pub fn resolve(&mut self, serial: &String, info: DeviceInfo)
        ensures
            final(self)@ == resolved(old(self)@, serial@, info@),
            well_formed(old(self)@) && info.serial@ == serial@ ==> well_formed(final(self)@),
    {
        proof {
            if well_formed(self@) && info.serial@ == serial@ {
                law_events_keep_well_formed(
                    self@,
                    EventView::ResolvedInfo(serial@, info@),
                    None,
                );
            }
        }
        match find_device(&self.devices, serial) {
            Some(i) => {
                let ghost devices = self@.devices;
                let mut known = info;
                known.loading = false;
                self.devices.set(i, known);
                proof {
                    assert(self@.devices =~= devices.update(i as int, known@));
                }
            },
            None => {},
        }
    }

    /// Reacts to an event. `current` is the serial number that is in use so far.
    pub fn handle(&mut self, event: AppEvent, current: Option<String>) -> (step: Step)
        ensures
            (final(self)@, step@) == handled(old(self)@, event@, view_of(current)),
            well_formed(old(self)@) && sound(event@) ==> well_formed(final(self)@),
    {
        match event {
            AppEvent::Key(press) => self.press(press, current),
            AppEvent::NewDevices(news) => {
                let added = self.announce(&news);
                Step::LookUp(added)
            },
            AppEvent::ResolvedInfo(serial, info) => {
                self.resolve(&serial, info);
                Step::Wait
            },
        }
    }
}

} // verus!
