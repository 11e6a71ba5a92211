//! What holds of the picker whatever happens to it.

use vstd::prelude::*;
use crate::device::{info_by_outputs, placeholder, CommandOutput, DeviceView};
use crate::picker::{
    announced, clear_word, fresh, goes_down, goes_sideways, goes_up, handled, initial,
    kept_devices, kept_serials, lemma_place_of, moved_down, moved_up, place_of, placeholders,
    pressed, quits, resolved, serials_of, settled, sound, well_formed, EventView, Key, KeyPress,
    PickerView, StateView, StepView,
};

verus! {

/// What a filter leaves of distinct serial numbers is distinct.
proof fn lemma_kept_distinct(serials: Seq<Seq<char>>, news: Seq<Seq<char>>)
    ensures
        serials.no_duplicates() ==> kept_serials(serials, news).no_duplicates(),
        forall|s: Seq<char>| #[trigger]
            kept_serials(serials, news).contains(s) <==> serials.contains(s) && news.contains(s),
    decreases serials.len(),
{
    reveal(Seq::filter);
    let kept = kept_serials(serials, news);
    if serials.len() > 0 {
        let rest = serials.drop_last();
        let last = serials.last();
        lemma_kept_distinct(rest, news);
        let before = kept_serials(rest, news);
        assert(serials =~= rest.push(last));
        assert forall|s: Seq<char>| #[trigger] kept.contains(s) implies serials.contains(s)
            && news.contains(s) by {
            let i = choose|i: int| 0 <= i < kept.len() && kept[i] == s;
            if i < before.len() {
                assert(before[i] == s);
                assert(before.contains(s));
                let j = choose|j: int| 0 <= j < rest.len() && rest[j] == s;
                assert(serials[j] == s);
            } else {
                assert(serials[serials.len() - 1] == s);
            }
        }
        assert forall|s: Seq<char>| serials.contains(s) && news.contains(s) implies #[trigger]
            kept.contains(s) by {
            let i = choose|i: int| 0 <= i < serials.len() && serials[i] == s;
            if i < rest.len() {
                assert(rest[i] == s);
                assert(before.contains(s));
                let j = choose|j: int| 0 <= j < before.len() && before[j] == s;
                assert(kept[j] == s);
            } else {
                assert(kept[kept.len() - 1] == s);
            }
        }
        if serials.no_duplicates() {
            assert(rest.no_duplicates());
            if news.contains(last) {
                assert(kept =~= before.push(last));
                assert forall|i: int, j: int|
                    0 <= i < kept.len() && 0 <= j < kept.len() && i != j implies kept[i]
                    != kept[j] by {
                    if i == before.len() || j == before.len() {
                        let k = if i == before.len() {
                            j
                        } else {
                            i
                        };
                        assert(before.contains(before[k]));
                        let m = choose|m: int| 0 <= m < rest.len() && rest[m] == before[k];
                        assert(serials[m] != serials[serials.len() - 1]);
                    }
                }
            } else {
                assert(kept =~= before);
            }
        }
    }
}

/// The devices that stay have the serial numbers that stay.
proof fn lemma_kept_together(devices: Seq<DeviceView>, news: Seq<Seq<char>>)
    ensures
        serials_of(kept_devices(devices, news)) == kept_serials(serials_of(devices), news),
    decreases devices.len(),
{
    reveal(Seq::filter);
    let serials = serials_of(devices);
    if devices.len() > 0 {
        lemma_kept_together(devices.drop_last(), news);
        assert(serials.drop_last() =~= serials_of(devices.drop_last()));
        assert(serials.last() == devices.last().serial);
    }
    assert(serials_of(kept_devices(devices, news)) =~= kept_serials(serials, news));
}

/// What is new is distinct, and is all of `news` that is not known.
proof fn lemma_fresh(known: Seq<Seq<char>>, news: Seq<Seq<char>>)
    ensures
        fresh(known, news).no_duplicates(),
        forall|s: Seq<char>| #[trigger]
            fresh(known, news).contains(s) <==> news.contains(s) && !known.contains(s),
    decreases news.len(),
{
    let all = fresh(known, news);
    if news.len() > 0 {
        let rest = news.drop_last();
        let last = news.last();
        lemma_fresh(known, rest);
        let before = fresh(known, rest);
        assert forall|s: Seq<char>| #[trigger] all.contains(s) implies news.contains(s)
            && !known.contains(s) by {
            let i = choose|i: int| 0 <= i < all.len() && all[i] == s;
            if i < before.len() {
                assert(before[i] == s);
                assert(before.contains(s));
                let j = choose|j: int| 0 <= j < rest.len() && rest[j] == s;
                assert(news[j] == s);
            } else {
                assert(news[news.len() - 1] == s);
            }
        }
        assert forall|s: Seq<char>| news.contains(s) && !known.contains(s) implies #[trigger]
            all.contains(s) by {
            let i = choose|i: int| 0 <= i < news.len() && news[i] == s;
            if i < rest.len() {
                assert(rest[i] == s);
                assert(before.contains(s));
                let j = choose|j: int| 0 <= j < before.len() && before[j] == s;
                assert(all[j] == s);
            } else if !before.contains(s) {
                assert(all[all.len() - 1] == s);
            } else {
                let j = choose|j: int| 0 <= j < before.len() && before[j] == s;
                assert(all[j] == s);
            }
        }
    }
}

/// Two sequences of distinct serial numbers without a common one are distinct together.
proof fn lemma_distinct_together(a: Seq<Seq<char>>, b: Seq<Seq<char>>)
    requires
        a.no_duplicates(),
        b.no_duplicates(),
        forall|s: Seq<char>| #[trigger] a.contains(s) ==> !b.contains(s),
    ensures
        (a + b).no_duplicates(),
{
    let both = a + b;
    assert forall|i: int, j: int|
        0 <= i < both.len() && 0 <= j < both.len() && i != j implies both[i] != both[j] by {
        if i < a.len() {
            assert(a.contains(a[i]));
        }
        if j < a.len() {
            assert(a.contains(a[j]));
        }
        if i >= a.len() {
            assert(b.contains(b[i - a.len()]));
        }
        if j >= a.len() {
            assert(b.contains(b[j - a.len()]));
        }
    }
}

/// Distinct serial numbers that are all among `all` are not more than these.
proof fn lemma_not_more(some: Seq<Seq<char>>, all: Seq<Seq<char>>)
    requires
        some.no_duplicates(),
        forall|s: Seq<char>| #[trigger] some.contains(s) ==> all.contains(s),
    ensures
        some.len() <= all.len(),
{
    some.unique_seq_to_set();
    all.lemma_cardinality_of_set();
    vstd::seq_lib::seq_to_set_is_finite(all);
    assert forall|s: Seq<char>| some.to_set().contains(s) implies all.to_set().contains(s) by {
        assert(some.contains(s));
    }
    vstd::set_lib::lemma_len_subset(some.to_set(), all.to_set());
}

/// The serial numbers of the list after an announcement.
proof fn lemma_announced_serials(p: PickerView, news: Seq<Seq<char>>)
    requires
        serials_of(p.devices) == p.active,
    ensures
        serials_of(announced(p, news).0.devices) == announced(p, news).0.active,
{
    let active = kept_serials(p.active, news);
    let added = fresh(active, news);
    lemma_kept_together(p.devices, news);
    let devices = kept_devices(p.devices, news);
    assert(serials_of(placeholders(added)) =~= added);
    assert(serials_of(devices + placeholders(added)) =~= serials_of(devices) + serials_of(
        placeholders(added),
    ));
}

/// After an announcement the known serial numbers are those announced, whatever the list was.
proof fn lemma_announced_active(p: PickerView, news: Seq<Seq<char>>, s: Seq<char>)
    ensures
        announced(p, news).0.active.contains(s) <==> news.contains(s),
{
    let active = kept_serials(p.active, news);
    let added = fresh(active, news);
    lemma_kept_distinct(p.active, news);
    lemma_fresh(active, news);
    crate::picker::lemma_among_both(active, added, s);
    assert(active.contains(s) || added.contains(s) || !news.contains(s));
}

/// The picker starts well-formed.
pub proof fn law_start_is_well_formed()
    ensures
        well_formed(initial()),
{
    assert(serials_of(initial().devices) =~= initial().active);
}

/// Every event leaves a well-formed picker well-formed.
pub proof fn law_events_keep_well_formed(
    p: PickerView,
    event: EventView,
    current: Option<Seq<char>>,
)
    requires
        well_formed(p),
        sound(event),
    ensures
        well_formed(handled(p, event, current).0),
{
    match event {
        EventView::Key(press) => {},
        EventView::NewDevices(news) => {
            let q = announced(p, news).0;
            let active = kept_serials(p.active, news);
            let added = fresh(active, news);
            lemma_kept_distinct(p.active, news);
            lemma_fresh(active, news);
            lemma_distinct_together(active, added);
            lemma_announced_serials(p, news);
            assert forall|s: Seq<char>| #[trigger] q.active.contains(s) implies news.contains(s) by {
                lemma_announced_active(p, news, s);
            }
            lemma_not_more(q.active, news);
            assert(q.devices.len() == serials_of(q.devices).len());
        },
        EventView::ResolvedInfo(serial, info) => {
            law_answer_keeps_the_list(p, serial, info);
        },
    }
}

/// An answer about a device changes at most the entry of that device: the serial numbers, their
/// order, the selection and the question stay as they are.
pub proof fn law_answer_keeps_the_list(p: PickerView, serial: Seq<char>, info: DeviceView)
    requires
        info.serial == serial,
    ensures
        serials_of(resolved(p, serial, info).devices) == serials_of(p.devices),
        resolved(p, serial, info) == (PickerView {
            devices: resolved(p, serial, info).devices,
            ..p
        }),
        forall|i: int|
            0 <= i < p.devices.len() && p.devices[i].serial != serial
                ==> #[trigger] resolved(p, serial, info).devices[i] == p.devices[i],
{
    lemma_place_of(p.devices, serial);
    assert(serials_of(resolved(p, serial, info).devices) =~= serials_of(p.devices));
}

/// The picker after a run of events, each with the serial number that was in use when it came.
pub open spec fn after(events: Seq<(EventView, Option<Seq<char>>)>) -> PickerView
    decreases events.len(),
{
    if events.len() == 0 {
        initial()
    } else {
        handled(after(events.drop_last()), events.last().0, events.last().1).0
    }
}

/// In every state that the picker can reach it is well-formed.
pub proof fn law_always_well_formed(events: Seq<(EventView, Option<Seq<char>>)>)
    requires
        forall|i: int| 0 <= i < events.len() ==> sound((#[trigger] events[i]).0),
    ensures
        well_formed(after(events)),
    decreases events.len(),
{
    if events.len() == 0 {
        law_start_is_well_formed();
    } else {
        let before = events.drop_last();
        assert forall|i: int| 0 <= i < before.len() implies sound((#[trigger] before[i]).0) by {
            assert(before[i] == events[i]);
        }
        law_always_well_formed(before);
        law_events_keep_well_formed(after(before), events.last().0, events.last().1);
    }
}

/// After an announcement the list has exactly the devices that were announced, each once.
pub proof fn law_list_has_what_was_announced(p: PickerView, news: Seq<Seq<char>>)
    requires
        well_formed(p),
    ensures
        serials_of(announced(p, news).0.devices).to_set() == news.to_set(),
        serials_of(announced(p, news).0.devices).no_duplicates(),
{
    let q = announced(p, news).0;
    let active = kept_serials(p.active, news);
    lemma_kept_distinct(p.active, news);
    lemma_fresh(active, news);
    lemma_distinct_together(active, fresh(active, news));
    lemma_announced_serials(p, news);
    assert forall|s: Seq<char>| q.active.to_set().contains(s) <==> news.to_set().contains(s) by {
        lemma_announced_active(p, news, s);
    }
    assert(q.active.to_set() =~= news.to_set());
}

/// An announcement asks for the properties of those devices, and only those, that were not known
/// before; of each once.
pub proof fn law_only_new_devices_are_looked_up(p: PickerView, news: Seq<Seq<char>>)
    ensures
        announced(p, news).1 matches StepView::LookUp(added) && added.no_duplicates() && forall|
            s: Seq<char>,
        | #[trigger] added.contains(s) <==> news.contains(s) && !p.active.contains(s),
{
    let active = kept_serials(p.active, news);
    lemma_kept_distinct(p.active, news);
    lemma_fresh(active, news);
}

/// A device that stays keeps its entry, and a device that has gone leaves none.
pub proof fn law_staying_devices_keep_their_entries(
    p: PickerView,
    news: Seq<Seq<char>>,
    d: DeviceView,
)
    requires
        p.devices.contains(d),
    ensures
        news.contains(d.serial) ==> announced(p, news).0.devices.contains(d),
        !news.contains(d.serial) ==> !serials_of(announced(p, news).0.devices).contains(d.serial),
{
    let q = announced(p, news).0;
    let kept = kept_devices(p.devices, news);
    let pred = |e: DeviceView| news.contains(e.serial);
    let i = choose|i: int| 0 <= i < p.devices.len() && p.devices[i] == d;
    let added = fresh(kept_serials(p.active, news), news);
    if news.contains(d.serial) {
        p.devices.lemma_filter_contains(pred, i);
        let j = choose|j: int| 0 <= j < kept.len() && kept[j] == d;
        assert(q.devices[j] == d);
    } else if serials_of(q.devices).contains(d.serial) {
        let j = choose|j: int|
            0 <= j < q.devices.len() && serials_of(q.devices)[j] == d.serial;
        if j < kept.len() {
            p.devices.lemma_filter_pred(pred, j);
            assert(pred(kept[j]));
        } else {
            lemma_fresh(kept_serials(p.active, news), news);
            assert(q.devices[j] == placeholder(added[j - kept.len()]));
            assert(added.contains(added[j - kept.len()]));
        }
    }
}

/// A filter that lets everything pass changes nothing.
proof fn lemma_filter_all<A>(s: Seq<A>, pred: spec_fn(A) -> bool)
    requires
        forall|i: int| 0 <= i < s.len() ==> pred(#[trigger] s[i]),
    ensures
        s.filter(pred) == s,
    decreases s.len(),
{
    reveal(Seq::filter);
    if s.len() > 0 {
        let rest = s.drop_last();
        assert forall|i: int| 0 <= i < rest.len() implies pred(#[trigger] rest[i]) by {
            assert(rest[i] == s[i]);
        }
        lemma_filter_all(rest, pred);
        assert(pred(s[s.len() - 1]));
        assert(s =~= rest.push(s.last()));
    }
}

/// After an announcement nothing leaves the list at the same announcement.
proof fn lemma_announced_devices_stay(p: PickerView, news: Seq<Seq<char>>)
    ensures
        kept_devices(announced(p, news).0.devices, news) == announced(p, news).0.devices,
{
    let devices = announced(p, news).0.devices;
    let kept = kept_devices(p.devices, news);
    let pred = |e: DeviceView| news.contains(e.serial);
    let active = kept_serials(p.active, news);
    let added = fresh(active, news);
    lemma_fresh(active, news);
    assert forall|i: int| 0 <= i < devices.len() implies pred(#[trigger] devices[i]) by {
        if i < kept.len() {
            p.devices.lemma_filter_pred(pred, i);
            assert(pred(kept[i]));
        } else {
            assert(devices[i] == placeholder(added[i - kept.len()]));
            assert(added.contains(added[i - kept.len()]));
        }
    }
    lemma_filter_all(devices, pred);
}

/// After an announcement the same announcement brings nothing new.
proof fn lemma_announced_active_stay(p: PickerView, news: Seq<Seq<char>>)
    ensures
        kept_serials(announced(p, news).0.active, news) == announced(p, news).0.active,
        fresh(announced(p, news).0.active, news) == Seq::<Seq<char>>::empty(),
{
    let active = announced(p, news).0.active;
    let known = |s: Seq<char>| news.contains(s);
    assert forall|i: int| 0 <= i < active.len() implies known(#[trigger] active[i]) by {
        lemma_announced_active(p, news, active[i]);
        assert(active.contains(active[i]));
    }
    lemma_filter_all(active, known);
    let again = fresh(active, news);
    lemma_fresh(active, news);
    if again.len() > 0 {
        assert(again.contains(again[0]));
        lemma_announced_active(p, news, again[0]);
    }
    assert(again =~= Seq::<Seq<char>>::empty());
}

/// The same announcement for a second time changes nothing and asks for nothing.
pub proof fn law_announcing_twice_is_announcing_once(p: PickerView, news: Seq<Seq<char>>)
    requires
        announced(p, news).0.devices.len() <= usize::MAX,
    ensures
        announced(announced(p, news).0, news) == (
            announced(p, news).0,
            StepView::LookUp(Seq::<Seq<char>>::empty()),
        ),
{
    let q = announced(p, news).0;
    lemma_announced_devices_stay(p, news);
    lemma_announced_active_stay(p, news);
    let none = Seq::<Seq<char>>::empty();
    assert(q.devices + placeholders(none) =~= q.devices);
    assert(q.active + none =~= q.active);
    assert(q.selected == settled(p.selected, q.devices.len()));
    assert(settled(q.selected, q.devices.len()) == q.selected);
}

/// An answer about a device that has gone in the meantime is dropped.
pub proof fn law_late_answers_are_dropped(
    p: PickerView,
    news: Seq<Seq<char>>,
    serial: Seq<char>,
    info: DeviceView,
)
    requires
        !news.contains(serial),
    ensures
        resolved(announced(p, news).0, serial, info) == announced(p, news).0,
{
    let devices = announced(p, news).0.devices;
    let pred = |e: DeviceView| news.contains(e.serial);
    lemma_announced_devices_stay(p, news);
    lemma_place_of(devices, serial);
    if place_of(devices, serial) is Some {
        let i = place_of(devices, serial)->0;
        devices.lemma_filter_pred(pred, i);
        assert(pred(devices[i]));
    }
}

/// What the commands say about a device is an answer that can come, and it is loaded.
pub proof fn law_answers_are_sound(
    serial: Seq<char>,
    name: Option<&CommandOutput>,
    props: Option<&CommandOutput>,
    users: Option<Seq<char>>,
)
    ensures
        sound(EventView::ResolvedInfo(serial, info_by_outputs(serial, name, props, users))),
        !info_by_outputs(serial, name, props, users).loading,
{
}

/// An answer about a device of the list is shown there, as loaded.
pub proof fn law_answers_are_shown(
    p: PickerView,
    i: int,
    info: DeviceView,
)
    requires
        well_formed(p),
        0 <= i < p.devices.len(),
    ensures
        resolved(p, p.devices[i].serial, info).devices == p.devices.update(
            i,
            DeviceView { loading: false, ..info },
        ),
{
    let serial = p.devices[i].serial;
    lemma_place_of(p.devices, serial);
    assert(p.active[i] == serial);
    let j = place_of(p.devices, serial)->0;
    assert(place_of(p.devices, serial) is Some);
    assert(p.active[j] == serial);
}

/// One place down undoes one place up, and the other way round.
pub proof fn law_up_and_down_are_inverse(i: usize, n: nat)
    requires
        i < n <= usize::MAX,
    ensures
        moved_down(moved_up(Some(i), n), n) == Some(i),
        moved_up(moved_down(Some(i), n), n) == Some(i),
{
}

/// Going down goes round the list.
pub proof fn law_down_goes_round(i: usize, n: nat)
    requires
        i < n <= usize::MAX,
    ensures
        moved_down(Some(i), n) == Some(((i + 1) % (n as int)) as usize),
        moved_up(Some(i), n) == Some(((i + n - 1) % (n as int)) as usize),
{
    if i + 1 < n {
        vstd::arithmetic::div_mod::lemma_small_mod((i + 1) as nat, n);
    } else {
        vstd::arithmetic::div_mod::lemma_mod_self_0(n as int);
    }
    if i == 0 {
        vstd::arithmetic::div_mod::lemma_small_mod((n - 1) as nat, n);
    } else {
        vstd::arithmetic::div_mod::lemma_mod_add_multiples_vanish(i - 1, n as int);
        vstd::arithmetic::div_mod::lemma_small_mod((i - 1) as nat, n);
    }
}

/// With no serial number in use, a key that asks to leave leaves without printing any.
pub proof fn law_leaving_without_a_serial(p: PickerView, press: KeyPress)
    requires
        p.state is Selecting,
        quits(press),
    ensures
        pressed(p, press, None) == (p, StepView::Exit(None)),
{
}

/// A serial number that is in use is never dropped without being asked about: to ask to leave
/// twice keeps it, and so does Enter as the first answer.
pub proof fn law_leaving_keeps_the_serial(
    p: PickerView,
    first: KeyPress,
    second: KeyPress,
    serial: Seq<char>,
    current: Option<Seq<char>>,
)
    requires
        p.state is Selecting,
        quits(first),
        quits(second) || second.key == Key::Enter,
    ensures
        pressed(p, first, Some(serial)).1 is Wait,
        pressed(pressed(p, first, Some(serial)).0, second, current).1 == StepView::Exit(
            Some(serial),
        ),
{
}

/// The serial number is cleared by moving to the other answer and Enter.
pub proof fn law_clearing(
    p: PickerView,
    first: KeyPress,
    second: KeyPress,
    third: KeyPress,
    serial: Seq<char>,
    current: Option<Seq<char>>,
)
    requires
        p.state is Selecting,
        quits(first),
        goes_up(second) || goes_down(second) || goes_sideways(second),
        third.key == Key::Enter,
    ensures
        ({
            let asked = pressed(p, first, Some(serial)).0;
            let moved = pressed(asked, second, current).0;
            pressed(moved, third, current).1 == StepView::Exit(Some(clear_word()))
        }),
{
}

/// Moving twice between the two answers comes back to the first.
pub proof fn law_moving_twice(
    p: PickerView,
    first: KeyPress,
    second: KeyPress,
    current: Option<Seq<char>>,
)
    requires
        well_formed(p),
        p.state is Confirming,
        goes_up(first) || goes_down(first) || goes_sideways(first),
        goes_up(second) || goes_down(second) || goes_sideways(second),
    ensures
        pressed(pressed(p, first, current).0, second, current) == (p, StepView::Wait),
{
}

/// Enter takes the selected device, wherever there is one to take.
pub proof fn law_enter_takes_the_selected_device(
    p: PickerView,
    press: KeyPress,
    current: Option<Seq<char>>,
)
    requires
        well_formed(p),
        p.state is Selecting,
        p.devices.len() > 0,
        press.key == Key::Enter,
    ensures
        p.selected is Some,
        pressed(p, press, current) == (p, StepView::Exit(Some(p.active[p.selected->0 as int]))),
{
}

/// Only a key ends the picker. What it ends with is a device of the list, the serial number that
/// was in use and is kept, the word that clears it, or nothing, where none was in use.
pub proof fn law_how_it_ends(p: PickerView, event: EventView, current: Option<Seq<char>>)
    requires
        well_formed(p),
        handled(p, event, current).1 is Exit,
    ensures
        event is Key,
        match handled(p, event, current).1->Exit_0 {
            Some(serial) => match p.state {
                StateView::Selecting => p.active.contains(serial),
                StateView::Confirming { current: kept, .. } => kept == Some(serial) || serial
                    == clear_word(),
            },
            None => p.state is Selecting && current is None,
        },
{
    match event {
        EventView::Key(press) => {
            if p.state is Selecting && press.key == Key::Enter {
                let i = p.selected->0 as int;
                assert(p.active[i] == p.devices[i].serial);
            }
        },
        _ => {},
    }
}

/// To handle an event is to press the key, to announce the devices, or to resolve the device.
pub proof fn law_handling(p: PickerView, event: EventView, current: Option<Seq<char>>)
    ensures
        event matches EventView::Key(press) ==> handled(p, event, current) == pressed(
            p,
            press,
            current,
        ),
        event matches EventView::NewDevices(news) ==> handled(p, event, current) == announced(
            p,
            news,
        ),
        event matches EventView::ResolvedInfo(serial, info) ==> handled(p, event, current) == (
            resolved(p, serial, info),
            StepView::Wait,
        ),
{
}

/// The picker starts with an empty list, its first place selected, and asks for a device.
pub proof fn law_start()
    ensures
        initial().devices.len() == 0,
        initial().active.len() == 0,
        initial().selected == Some(0usize),
        initial().state is Selecting,
{
}

/// Up and `k` go to the place above, and from the top of the list to its bottom. Nothing but the
/// selection changes.
pub proof fn law_going_up(p: PickerView, press: KeyPress, current: Option<Seq<char>>)
    requires
        p.state is Selecting,
        press.key == Key::Up || press.key == Key::Char('k'),
        p.devices.len() <= usize::MAX,
    ensures
        ({
            let (q, step) = handled(p, EventView::Key(press), current);
            let n = p.devices.len();
            &&& step is Wait
            &&& q == (PickerView { selected: q.selected, ..p })
            &&& q.selected is Some
            &&& p.selected is None ==> q.selected->0 == 0
            &&& p.selected matches Some(i) ==> {
                &&& i < n ==> q.selected->0 < n && (q.selected->0 + 1) % (n as int) == i
                &&& i >= n && i > 0 ==> q.selected->0 + 1 == i
                &&& i >= n && i == 0 ==> q.selected->0 == 0
            }
        }),
{
    if p.selected is Some && p.selected->0 < p.devices.len() {
        let n = p.devices.len();
        let i = p.selected->0;
        if i == 0 {
            vstd::arithmetic::div_mod::lemma_mod_self_0(n as int);
        } else {
            vstd::arithmetic::div_mod::lemma_small_mod(i as nat, n);
        }
    }
}

/// Down and `j` go to the place below, and from the bottom of the list to its top. Nothing but the
/// selection changes.
pub proof fn law_going_down(p: PickerView, press: KeyPress, current: Option<Seq<char>>)
    requires
        p.state is Selecting,
        press.key == Key::Down || press.key == Key::Char('j'),
        p.devices.len() <= usize::MAX,
    ensures
        ({
            let (q, step) = handled(p, EventView::Key(press), current);
            let n = p.devices.len();
            &&& step is Wait
            &&& q == (PickerView { selected: q.selected, ..p })
            &&& q.selected is Some
            &&& p.selected is None ==> q.selected->0 == 0
            &&& p.selected matches Some(i) ==> {
                &&& i < n ==> q.selected->0 == (i + 1) % (n as int)
                &&& i >= n ==> q.selected->0 == 0
            }
        }),
{
    if p.selected is Some && p.selected->0 < p.devices.len() {
        let n = p.devices.len();
        let i = p.selected->0;
        if i + 1 == n {
            vstd::arithmetic::div_mod::lemma_mod_self_0(n as int);
        } else {
            vstd::arithmetic::div_mod::lemma_small_mod((i + 1) as nat, n);
        }
    }
}

/// Enter leaves with the serial number of the selected device. Where none is selected it does
/// nothing.
pub proof fn law_taking(p: PickerView, press: KeyPress, current: Option<Seq<char>>)
    requires
        p.state is Selecting,
        press.key == Key::Enter,
    ensures
        ({
            let after = handled(p, EventView::Key(press), current);
            &&& forall|i: usize|
                i < p.devices.len() && p.selected == Some(i) ==> after == (
                    p,
                    StepView::Exit(Some((#[trigger] p.devices[i as int]).serial)),
                )
            &&& (forall|i: usize| p.selected == Some(i) ==> i >= p.devices.len()) ==> after == (
                p,
                StepView::Wait,
            )
            &&& well_formed(p) && p.devices.len() > 0 ==> after == (
                p,
                StepView::Exit(Some(p.devices[p.selected->0 as int].serial)),
            )
        }),
{
    if p.selected is Some {
        let i = p.selected->0;
        assert(p.selected == Some(i));
    }
}

/// Escape, `q`, and `c` with Control leave with nothing where no serial number is in use. Where
/// one is, they ask what to do with it, and the answer that keeps it comes first.
pub proof fn law_leaving(p: PickerView, press: KeyPress, serial: Seq<char>)
    requires
        p.state is Selecting,
        press.key == Key::Esc || press.key == Key::Char('q') || (press.key == Key::Char('c')
            && press.control),
    ensures
        handled(p, EventView::Key(press), None) == (p, StepView::Exit(None)),
        handled(p, EventView::Key(press), Some(serial)) == (
            PickerView {
                devices: p.devices,
                active: p.active,
                selected: p.selected,
                state: StateView::Confirming { current: Some(serial), option: 0 },
            },
            StepView::Wait,
        ),
{
}

/// No other key does anything while a device is being selected.
pub proof fn law_other_keys_while_selecting(
    p: PickerView,
    press: KeyPress,
    current: Option<Seq<char>>,
)
    requires
        p.state is Selecting,
        press.key != Key::Up && press.key != Key::Char('k'),
        press.key != Key::Down && press.key != Key::Char('j'),
        press.key != Key::Enter,
        press.key != Key::Esc && press.key != Key::Char('q'),
        press.key == Key::Char('c') ==> !press.control,
    ensures
        handled(p, EventView::Key(press), current) == (p, StepView::Wait),
{
}

/// Each of the keys that move goes from one answer to the other. Nothing else changes.
pub proof fn law_changing_the_answer(p: PickerView, press: KeyPress, current: Option<Seq<char>>)
    requires
        p.state is Confirming,
        press.key == Key::Up || press.key == Key::Down || press.key == Key::Left || press.key
            == Key::Right || press.key == Key::Char('k') || press.key == Key::Char('j') || press.key
            == Key::Char('h') || press.key == Key::Char('l'),
    ensures
        ({
            let (q, step) = handled(p, EventView::Key(press), current);
            &&& step is Wait
            &&& q == (PickerView { state: q.state, ..p })
            &&& p.state matches StateView::Confirming { current: kept, option } ==> {
                &&& q.state matches StateView::Confirming { current: still, option: other }
                &&& still == kept
                &&& option == 0 ==> other == 1
                &&& option != 0 ==> other == 0
            }
        }),
{
}

/// Enter gives the answer: to keep leaves with the serial number, to clear leaves with the word
/// that clears it. The keys that ask to leave keep it, whichever answer is chosen. What is in use
/// by then makes no difference.
pub proof fn law_answering(p: PickerView, press: KeyPress, current: Option<Seq<char>>)
    requires
        p.state is Confirming,
    ensures
        p.state matches StateView::Confirming { current: kept, option } ==> {
            let after = handled(p, EventView::Key(press), current);
            &&& press.key == Key::Enter && option == 0 ==> after == (p, StepView::Exit(kept))
            &&& press.key == Key::Enter && option != 0 ==> after == (
                p,
                StepView::Exit(Some("__CLEAR__"@)),
            )
            &&& press.key == Key::Esc || press.key == Key::Char('q') || (press.key == Key::Char('c')
                && press.control) ==> after == (p, StepView::Exit(kept))
        },
{
}

/// No other key does anything while the question is asked.
pub proof fn law_other_keys_while_confirming(
    p: PickerView,
    press: KeyPress,
    current: Option<Seq<char>>,
)
    requires
        p.state is Confirming,
        press.key != Key::Up && press.key != Key::Down,
        press.key != Key::Left && press.key != Key::Right,
        press.key != Key::Char('k') && press.key != Key::Char('j'),
        press.key != Key::Char('h') && press.key != Key::Char('l'),
        press.key != Key::Enter,
        press.key != Key::Esc && press.key != Key::Char('q'),
        press.key == Key::Char('c') ==> !press.control,
    ensures
        handled(p, EventView::Key(press), current) == (p, StepView::Wait),
{
}

/// An announcement leaves the selection at its place in the list, as long as the list still has
/// that place. A selection beyond the end goes to the last place, and where nothing is selected
/// the first one is. In an empty list nothing is selected. What is being asked stays as it is.
pub proof fn law_announcing_keeps_the_selection(
    p: PickerView,
    news: Seq<Seq<char>>,
    current: Option<Seq<char>>,
)
    requires
        handled(p, EventView::NewDevices(news), current).0.devices.len() <= usize::MAX,
    ensures
        ({
            let (q, step) = handled(p, EventView::NewDevices(news), current);
            let n = q.devices.len();
            &&& q.state == p.state
            &&& n == 0 ==> q.selected is None
            &&& n > 0 ==> q.selected is Some && q.selected->0 < n
            &&& n > 0 && p.selected is None ==> q.selected->0 == 0
            &&& p.selected matches Some(i) ==> {
                &&& i < n ==> q.selected == p.selected
                &&& 0 < n <= i ==> q.selected->0 + 1 == n
            }
        }),
{
}

/// An announcement puts those devices that are new at the end of the list, in the order in which
/// they are looked up. Each is shown as loading, under its serial number. What stands before them
/// was in the list already, entry for entry, and was announced again.
pub proof fn law_announcing_adds_at_the_end(
    p: PickerView,
    news: Seq<Seq<char>>,
    current: Option<Seq<char>>,
)
    ensures
        ({
            let (q, step) = handled(p, EventView::NewDevices(news), current);
            &&& step matches StepView::LookUp(added)
            &&& added.len() <= q.devices.len()
            &&& forall|j: int|
                0 <= j < added.len() ==> q.devices[q.devices.len() - added.len() + j] == (
                DeviceView {
                    serial: #[trigger] added[j],
                    name: added[j],
                    fingerprint: Seq::<char>::empty(),
                    release: Seq::<char>::empty(),
                    sdk: Seq::<char>::empty(),
                    users: None,
                    loading: true,
                })
            &&& forall|j: int|
                0 <= j < q.devices.len() - added.len() ==> p.devices.contains(
                    #[trigger] q.devices[j],
                ) && news.contains(q.devices[j].serial)
            &&& added.no_duplicates()
            &&& forall|s: Seq<char>| #[trigger]
                added.contains(s) <==> news.contains(s) && !p.active.contains(s)
            &&& well_formed(p) ==> serials_of(q.devices) == q.active
        }),
{
    let q = handled(p, EventView::NewDevices(news), current).0;
    let active = kept_serials(p.active, news);
    let added = fresh(active, news);
    let kept = kept_devices(p.devices, news);
    let pred = |d: DeviceView| news.contains(d.serial);
    lemma_kept_distinct(p.active, news);
    lemma_fresh(active, news);
    reveal_strlit("");
    assert(""@ =~= Seq::<char>::empty());
    assert forall|j: int| 0 <= j < kept.len() implies p.devices.contains(#[trigger] q.devices[j])
        && news.contains(q.devices[j].serial) by {
        assert(q.devices[j] == kept[j]);
        p.devices.lemma_filter_pred(pred, j);
        assert(pred(kept[j]));
        lemma_filter_only(p.devices, pred, j);
    }
    assert forall|j: int| 0 <= j < added.len() implies q.devices[kept.len() + j] == placeholder(
        #[trigger] added[j],
    ) by {
        assert(placeholders(added)[j] == placeholder(added[j]));
    }
    if well_formed(p) {
        lemma_announced_serials(p, news);
    }
}

/// What a filter leaves was there before.
proof fn lemma_filter_only<A>(s: Seq<A>, pred: spec_fn(A) -> bool, j: int)
    requires
        0 <= j < s.filter(pred).len(),
    ensures
        s.contains(s.filter(pred)[j]),
    decreases s.len(),
{
    reveal(Seq::filter);
    if s.len() > 0 {
        let rest = s.drop_last();
        if j < rest.filter(pred).len() {
            lemma_filter_only(rest, pred, j);
            let i = choose|i: int| 0 <= i < rest.len() && rest[i] == rest.filter(pred)[j];
            assert(s[i] == s.filter(pred)[j]);
        } else {
            assert(s[s.len() - 1] == s.filter(pred)[j]);
        }
    }
}

/// Whether `a` and `b` stand at the places `i` and `j` of a sequence.
pub open spec fn stand_at<A>(s: Seq<A>, i: int, a: A, j: int, b: A) -> bool {
    0 <= i < s.len() && 0 <= j < s.len() && s[i] == a && s[j] == b
}

/// A filter keeps the order.
proof fn lemma_filter_order<A>(s: Seq<A>, pred: spec_fn(A) -> bool, i: int, j: int)
    requires
        0 <= i < j < s.len(),
        pred(s[i]),
        pred(s[j]),
    ensures
        exists|k: int, l: int|
            k < l && #[trigger] stand_at(s.filter(pred), k, s[i], l, s[j]),
    decreases s.len(),
{
    reveal(Seq::filter);
    let rest = s.drop_last();
    let kept = s.filter(pred);
    let before = rest.filter(pred);
    assert(rest[i] == s[i]);
    if j < rest.len() {
        assert(rest[j] == s[j]);
        lemma_filter_order(rest, pred, i, j);
        let (k, l) = choose|k: int, l: int|
            k < l && #[trigger] stand_at(before, k, s[i], l, s[j]);
        assert(stand_at(kept, k, s[i], l, s[j]));
    } else {
        rest.lemma_filter_contains(pred, i);
        let k = choose|k: int| 0 <= k < before.len() && before[k] == s[i];
        assert(kept =~= before.push(s.last()));
        assert(stand_at(kept, k, s[i], before.len() as int, s[j]));
    }
}

/// Devices that stay keep their order, and stand before those that are new.
pub proof fn law_staying_devices_keep_their_order(
    p: PickerView,
    news: Seq<Seq<char>>,
    i: int,
    j: int,
    current: Option<Seq<char>>,
)
    requires
        0 <= i < j < p.devices.len(),
        news.contains(p.devices[i].serial),
        news.contains(p.devices[j].serial),
    ensures
        ({
            let (q, step) = handled(p, EventView::NewDevices(news), current);
            &&& step matches StepView::LookUp(added)
            &&& exists|k: int, l: int|
                k < l < q.devices.len() - added.len() && #[trigger] stand_at(
                    q.devices,
                    k,
                    p.devices[i],
                    l,
                    p.devices[j],
                )
        }),
{
    let q = handled(p, EventView::NewDevices(news), current).0;
    let pred = |d: DeviceView| news.contains(d.serial);
    let kept = kept_devices(p.devices, news);
    lemma_filter_order(p.devices, pred, i, j);
    let (k, l) = choose|k: int, l: int|
        k < l && #[trigger] stand_at(kept, k, p.devices[i], l, p.devices[j]);
    assert(stand_at(q.devices, k, p.devices[i], l, p.devices[j]));
}

/// What is new comes in the order in which it was first announced.
proof fn lemma_fresh_order(known: Seq<Seq<char>>, news: Seq<Seq<char>>, a: int, b: int, k: int)
    requires
        0 <= a < b < fresh(known, news).len(),
        0 <= k < news.len(),
        news[k] == fresh(known, news)[b],
    ensures
        exists|i: int| 0 <= i < k && #[trigger] news[i] == fresh(known, news)[a],
    decreases news.len(),
{
    let rest = news.drop_last();
    let before = fresh(known, rest);
    let all = fresh(known, news);
    lemma_fresh(known, rest);
    lemma_fresh(known, news);
    if b < before.len() {
        if k < rest.len() {
            lemma_fresh_order(known, rest, a, b, k);
            let i = choose|i: int| 0 <= i < k && #[trigger] rest[i] == before[a];
            assert(news[i] == all[a]);
        } else {
            assert(before.contains(before[a]));
            let i = choose|i: int| 0 <= i < rest.len() && rest[i] == before[a];
            assert(news[i] == all[a]);
        }
    } else {
        assert(before.contains(before[a]));
        let i = choose|i: int| 0 <= i < rest.len() && rest[i] == before[a];
        assert(news[i] == all[a]);
        if k < rest.len() {
            assert(rest[k] == news.last());
            assert(rest.contains(news.last()));
            assert(before.contains(news.last()));
        }
    }
}

/// New devices come in the order in which they were first announced: the later of two is announced
/// nowhere before the earlier one is.
pub proof fn law_new_devices_come_in_order(
    p: PickerView,
    news: Seq<Seq<char>>,
    current: Option<Seq<char>>,
    a: int,
    b: int,
    k: int,
)
    ensures
        ({
            let (q, step) = handled(p, EventView::NewDevices(news), current);
            &&& step matches StepView::LookUp(added)
            &&& 0 <= a < b < added.len() && 0 <= k < news.len() && news[k] == added[b]
                ==> exists|i: int| 0 <= i < k && #[trigger] news[i] == added[a]
        }),
{
    let added = fresh(kept_serials(p.active, news), news);
    if 0 <= a < b < added.len() && 0 <= k < news.len() && news[k] == added[b] {
        lemma_fresh_order(kept_serials(p.active, news), news, a, b, k);
    }
}

/// An answer about a device of the list becomes its entry, as loaded. Nothing else changes.
pub proof fn law_answer_becomes_the_entry(
    p: PickerView,
    i: int,
    info: DeviceView,
    current: Option<Seq<char>>,
)
    requires
        0 <= i < p.devices.len(),
        forall|j: int| 0 <= j < i ==> (#[trigger] p.devices[j]).serial != p.devices[i].serial,
    ensures
        handled(p, EventView::ResolvedInfo(p.devices[i].serial, info), current) == (
            PickerView {
                devices: p.devices.update(
                    i,
                    DeviceView {
                        serial: info.serial,
                        name: info.name,
                        fingerprint: info.fingerprint,
                        release: info.release,
                        sdk: info.sdk,
                        users: info.users,
                        loading: false,
                    },
                ),
                active: p.active,
                selected: p.selected,
                state: p.state,
            },
            StepView::Wait,
        ),
{
    lemma_place_of(p.devices, p.devices[i].serial);
    let j = place_of(p.devices, p.devices[i].serial)->0;
    assert(p.devices[j].serial == p.devices[i].serial);
}

/// An answer about a device that is not in the list changes nothing.
pub proof fn law_answer_about_no_device(
    p: PickerView,
    serial: Seq<char>,
    info: DeviceView,
    current: Option<Seq<char>>,
)
    requires
        forall|j: int| 0 <= j < p.devices.len() ==> (#[trigger] p.devices[j]).serial != serial,
    ensures
        handled(p, EventView::ResolvedInfo(serial, info), current) == (p, StepView::Wait),
{
    lemma_place_of(p.devices, serial);
}

/// The first device of the first announcement is what Enter takes.
pub proof fn law_first_device_first(
    news: Seq<Seq<char>>,
    press: KeyPress,
    current: Option<Seq<char>>,
)
    requires
        0 < news.len() <= usize::MAX,
        press.key == Key::Enter,
    ensures
        ({
            let (p, step) = handled(initial(), EventView::NewDevices(news), current);
            handled(p, EventView::Key(press), current).1 == StepView::Exit(Some(news[0]))
        }),
{
    let none = Seq::<Seq<char>>::empty();
    let p = handled(initial(), EventView::NewDevices(news), current).0;
    law_start_is_well_formed();
    law_events_keep_well_formed(initial(), EventView::NewDevices(news), current);
    law_announcing_adds_at_the_end(initial(), news, current);
    law_announcing_keeps_the_selection(initial(), news, current);
    let added = handled(initial(), EventView::NewDevices(news), current).1->LookUp_0;
    assert(news.contains(news[0]));
    assert(added.contains(news[0]));
    let b = choose|b: int| 0 <= b < added.len() && added[b] == news[0];
    if b > 0 {
        law_new_devices_come_in_order(initial(), news, current, 0, b, 0);
    }
    if p.devices.len() > added.len() {
        assert(initial().devices.contains(p.devices[0]));
    }
    assert(p.devices[0].serial == added[0]);
    law_taking(p, press, current);
}

} // verus!
