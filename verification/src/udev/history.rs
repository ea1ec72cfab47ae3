//! What holds of USB devices over any number of events.

use vstd::prelude::*;

use crate::path::PathView;
use crate::text::hex_number;
use crate::udev::usb::{
    all_connected, event_step, interfaces_at, is_required, is_there, lemma_other_usb_devices_stay,
    no_devices, tells, usb_event, usb_output, usb_outputs, usb_run, usb_step, Required,
    UsbEventView, UsbState,
};
use crate::udev::{
    device_step, lemma_device_kept, tells_interface, DeviceAction, DeviceEventView, DeviceInfoView,
    KnownDevices, UdevEvent,
};

verus! {

/// The events that concern interfaces that are needed.
pub open spec fn needed_events(
    required: Required,
    events: Seq<DeviceEventView>,
) -> Seq<DeviceEventView> {
    events.filter(|event: DeviceEventView| is_required(required, event.device))
}

/// Events that are not needed make nothing known and leave no trace.
pub proof fn lemma_unneeded_leave_no_trace(
    required: Required,
    state: UsbState,
    events: Seq<DeviceEventView>,
)
    ensures
        usb_run(required, state, needed_events(required, events)) == usb_run(
            required,
            state,
            events,
        ),
        usb_outputs(required, state, needed_events(required, events)) == usb_outputs(
            required,
            state,
            events,
        ),
    decreases events.len(),
{
    reveal(Seq::filter);
    if events.len() > 0 {
        let before = needed_events(required, events.drop_last());
        lemma_unneeded_leave_no_trace(required, state, events.drop_last());
        if is_required(required, events.last().device) {
            assert(needed_events(required, events) == before.push(events.last()));
            assert(before.push(events.last()).drop_last() =~= before);
        }
    }
}

/// The events that concern the USB device at `path`.
pub open spec fn own_events(events: Seq<DeviceEventView>, path: PathView) -> Seq<DeviceEventView> {
    events.filter(|event: DeviceEventView| event.device.usb_device_syspath == path)
}

/// What is made known of the USB device at `path`.
pub open spec fn own_outputs(outputs: Seq<UsbEventView>, path: PathView) -> Seq<UsbEventView> {
    outputs.filter(|output: UsbEventView| output.device.syspath == path)
}

/// What becomes of a USB device, and what is made known of it, follows from its own events.
pub proof fn lemma_own_events_decide(
    required: Required,
    state: UsbState,
    events: Seq<DeviceEventView>,
    path: PathView,
)
    ensures
        ({
            let all = usb_run(required, state, events);
            let own = usb_run(required, state, own_events(events, path));
            &&& own.ready.contains(path) == all.ready.contains(path)
            &&& own.connected.contains_key(path) == all.connected.contains_key(path)
            &&& interfaces_at(own, path) == interfaces_at(all, path)
            &&& usb_outputs(required, state, own_events(events, path)) == own_outputs(
                usb_outputs(required, state, events),
                path,
            )
        }),
    decreases events.len(),
{
    reveal(Seq::filter);
    if events.len() > 0 {
        let rest = events.drop_last();
        let last = events.last();
        let before = own_events(rest, path);
        let outputs = usb_outputs(required, state, rest);
        lemma_own_events_decide(required, state, rest, path);
        let output = usb_step(required, usb_run(required, state, rest), last).1;
        if output is Some {
            assert(outputs.push(output->0).drop_last() =~= outputs);
        }
        if last.device.usb_device_syspath == path {
            assert(own_events(events, path) == before.push(last));
            assert(before.push(last).drop_last() =~= before);
        } else {
            lemma_other_usb_devices_stay(required, usb_run(required, state, rest), last, path);
        }
    }
}

/// The interfaces that are there after those in `events` have appeared.
pub open spec fn with_nodes(
    interfaces: Map<u8, Seq<u8>>,
    events: Seq<DeviceEventView>,
) -> Map<u8, Seq<u8>>
    decreases events.len(),
{
    if events.len() == 0 {
        interfaces
    } else {
        let device = events.last().device;
        with_nodes(interfaces, events.drop_last()).insert(device.interface_number, device.devnode)
    }
}

/// Whether `event` adds an interface of the USB device `usb`.
pub open spec fn is_appearance(event: DeviceEventView, usb: DeviceInfoView) -> bool {
    &&& event.action == DeviceAction::Add
    &&& event.device.usb_device_syspath == usb.usb_device_syspath
    &&& event.device.usb_device_sysname == usb.usb_device_sysname
    &&& event.device.product_id == usb.product_id
}

/// Whether no two of the events give one interface different nodes.
pub open spec fn are_consistent(events: Seq<DeviceEventView>) -> bool {
    forall|i: int, j: int|
        0 <= i < events.len() && 0 <= j < events.len() && (
        #[trigger] events[i]).device.interface_number == (
        #[trigger] events[j]).device.interface_number ==> events[i].device.devnode
            == events[j].device.devnode
}

/// Whether `events` adds interfaces of the USB device `usb` that are needed, each with one node.
pub open spec fn are_appearances(
    required: Required,
    state: UsbState,
    events: Seq<DeviceEventView>,
    usb: DeviceInfoView,
) -> bool {
    &&& forall|i: int|
        0 <= i < events.len() ==> {
            let event = #[trigger] events[i];
            &&& is_appearance(event, usb)
            &&& is_required(required, event.device)
            &&& has_node_of(interfaces_at(state, usb.usb_device_syspath), event)
        }
    &&& are_consistent(events)
}

/// Whether the interface that `event` adds has the same node already, if it is there.
pub open spec fn has_node_of(interfaces: Map<u8, Seq<u8>>, event: DeviceEventView) -> bool {
    interfaces.contains_key(event.device.interface_number)
        ==> interfaces[event.device.interface_number] == event.device.devnode
}

proof fn lemma_with_nodes(interfaces: Map<u8, Seq<u8>>, events: Seq<DeviceEventView>, number: u8)
    requires
        are_consistent(events),
    ensures
        forall|i: int|
            0 <= i < events.len() && (#[trigger] events[i]).device.interface_number == number ==> {
                &&& with_nodes(interfaces, events).contains_key(number)
                &&& with_nodes(interfaces, events)[number] == events[i].device.devnode
            },
        (forall|i: int|
            0 <= i < events.len() ==> (#[trigger] events[i]).device.interface_number != number)
            ==> {
            &&& with_nodes(interfaces, events).contains_key(number) == interfaces.contains_key(
                number,
            )
            &&& interfaces.contains_key(number) ==> with_nodes(interfaces, events)[number]
                == interfaces[number]
        },
    decreases events.len(),
{
    if events.len() > 0 {
        let less = events.drop_last();
        let last = events.len() - 1;
        assert forall|i: int| 0 <= i < less.len() implies #[trigger] less[i] == events[i] by {}
        assert(are_consistent(less));
        lemma_with_nodes(interfaces, less, number);
        assert forall|i: int|
            0 <= i < events.len() && (#[trigger] events[i]).device.interface_number
                == number implies {
            &&& with_nodes(interfaces, events).contains_key(number)
            &&& with_nodes(interfaces, events)[number] == events[i].device.devnode
        } by {
            assert(events[last] == events.last());
            if i < last {
                assert(less[i] == events[i]);
            }
        }
    }
}

proof fn lemma_appearances(
    required: Required,
    state: UsbState,
    events: Seq<DeviceEventView>,
    usb: DeviceInfoView,
)
    requires
        are_appearances(required, state, events, usb),
        !state.ready.contains(usb.usb_device_syspath),
    ensures
        ({
            let path = usb.usb_device_syspath;
            let nodes = with_nodes(interfaces_at(state, path), events);
            let complete = all_connected(required[usb.product_id], nodes);
            let after = usb_run(required, state, events);
            if events.len() == 0 {
                &&& after == state
                &&& usb_outputs(required, state, events) == Seq::<UsbEventView>::empty()
            } else {
                &&& after.connected == state.connected.insert(path, nodes)
                &&& after.ready == if complete {
                    state.ready.insert(path)
                } else {
                    state.ready
                }
                &&& usb_outputs(required, state, events) == if complete {
                    seq![usb_event(DeviceAction::Add, usb, nodes)]
                } else {
                    Seq::empty()
                }
            }
        }),
    decreases events.len(),
{
    if events.len() > 0 {
        let path = usb.usb_device_syspath;
        let start = interfaces_at(state, path);
        let less = events.drop_last();
        let last = events.last();
        let number = last.device.interface_number;
        let before = with_nodes(start, less);
        let needed = required[usb.product_id];
        assert forall|i: int| 0 <= i < less.len() implies #[trigger] less[i] == events[i] by {}
        assert(are_consistent(less));
        assert(are_appearances(required, state, less, usb));
        lemma_appearances(required, state, less, usb);
        assert(events[events.len() - 1] == last);
        let n = choose|n: int| 0 <= n < needed.len() && needed[n] == number;
        assert(needed[n] == number);
        let reached = usb_run(required, state, less);
        let after = usb_run(required, state, events);
        if reached.ready.contains(path) {
            lemma_with_nodes(start, less, number);
            assert(before.contains_key(number));
            assert(before[number] == last.device.devnode);
            assert(with_nodes(start, events) =~= before);
        } else {
            assert(interfaces_at(reached, path) == before);
            assert(after.connected =~= state.connected.insert(path, with_nodes(start, events)));
            assert(usb_outputs(required, state, less) =~= Seq::empty());
        }
    }
}

proof fn lemma_same_node(
    start: Map<u8, Seq<u8>>,
    a: Seq<DeviceEventView>,
    b: Seq<DeviceEventView>,
    number: u8,
)
    requires
        are_consistent(a),
        are_consistent(b),
        forall|event: DeviceEventView| a.contains(event) <==> b.contains(event),
    ensures
        with_nodes(start, a).contains_key(number) == with_nodes(start, b).contains_key(number),
        with_nodes(start, a).contains_key(number) ==> with_nodes(start, a)[number] == with_nodes(
            start,
            b,
        )[number],
{
    lemma_with_nodes(start, a, number);
    lemma_with_nodes(start, b, number);
    if exists|i: int| 0 <= i < a.len() && (#[trigger] a[i]).device.interface_number == number {
        let i = choose|i: int|
            0 <= i < a.len() && (#[trigger] a[i]).device.interface_number == number;
        assert(a.contains(a[i]));
        assert(b.contains(a[i]));
        let j = choose|j: int| 0 <= j < b.len() && b[j] == a[i];
        assert(b[j].device.interface_number == number);
    } else if exists|j: int|
        0 <= j < b.len() && (#[trigger] b[j]).device.interface_number == number {
        let j = choose|j: int|
            0 <= j < b.len() && (#[trigger] b[j]).device.interface_number == number;
        assert(b.contains(b[j]));
        assert(a.contains(b[j]));
        let i = choose|i: int| 0 <= i < a.len() && a[i] == b[j];
        assert(a[i].device.interface_number == number);
    }
}

/// The order in which the interfaces of a USB device appear does not matter: neither for what is
/// there in the end, nor for what is made known.
pub proof fn lemma_order_does_not_matter(
    required: Required,
    state: UsbState,
    a: Seq<DeviceEventView>,
    b: Seq<DeviceEventView>,
    usb: DeviceInfoView,
)
    requires
        are_appearances(required, state, a, usb),
        are_appearances(required, state, b, usb),
        forall|event: DeviceEventView| a.contains(event) <==> b.contains(event),
    ensures
        usb_run(required, state, a) == usb_run(required, state, b),
        usb_outputs(required, state, a) == usb_outputs(required, state, b),
{
    let path = usb.usb_device_syspath;
    if state.ready.contains(path) {
        lemma_ready_ignores_appearances(required, state, a, usb);
        lemma_ready_ignores_appearances(required, state, b, usb);
    } else {
        let start = interfaces_at(state, path);
        let left = with_nodes(start, a);
        let right = with_nodes(start, b);
        assert forall|number: u8| #[trigger] left.contains_key(number) == right.contains_key(
            number,
        ) by {
            lemma_same_node(start, a, b, number);
        }
        assert forall|number: u8| #[trigger] left.contains_key(number) implies left[number]
            == right[number] by {
            lemma_same_node(start, a, b, number);
        }
        assert(left =~= right);
        if a.len() > 0 {
            assert(a.contains(a[0]));
            assert(b.contains(a[0]));
        }
        if b.len() > 0 {
            assert(b.contains(b[0]));
            assert(a.contains(b[0]));
        }
        lemma_appearances(required, state, a, usb);
        lemma_appearances(required, state, b, usb);
    }
}

proof fn lemma_ready_ignores_appearances(
    required: Required,
    state: UsbState,
    events: Seq<DeviceEventView>,
    usb: DeviceInfoView,
)
    requires
        are_appearances(required, state, events, usb),
        state.ready.contains(usb.usb_device_syspath),
    ensures
        usb_run(required, state, events) == state,
        usb_outputs(required, state, events) == Seq::<UsbEventView>::empty(),
    decreases events.len(),
{
    if events.len() > 0 {
        let less = events.drop_last();
        assert forall|i: int| 0 <= i < less.len() implies #[trigger] less[i] == events[i] by {}
        assert(are_consistent(less));
        assert(are_appearances(required, state, less, usb));
        lemma_ready_ignores_appearances(required, state, less, usb);
        assert(is_appearance(events[events.len() - 1], usb));
    }
}

/// Whether `event` concerns an interface of the USB device at `path` that is needed.
pub open spec fn concerns(required: Required, event: DeviceEventView, path: PathView) -> bool {
    event.device.usb_device_syspath == path && is_required(required, event.device)
}

/// Whether the interface `number` of the USB device at `path` is live after `events`: the last
/// event about it that is needed is an addition.
pub open spec fn is_live(
    required: Required,
    events: Seq<DeviceEventView>,
    path: PathView,
    number: u8,
) -> bool
    decreases events.len(),
{
    if events.len() == 0 {
        false
    } else if concerns(required, events.last(), path) && events.last().device.interface_number
        == number {
        events.last().action == DeviceAction::Add
    } else {
        is_live(required, events.drop_last(), path, number)
    }
}

/// Whether all of the `needed` interfaces of the USB device at `path` are live.
pub open spec fn all_live(
    required: Required,
    events: Seq<DeviceEventView>,
    path: PathView,
    needed: Seq<u8>,
) -> bool {
    forall|i: int| 0 <= i < needed.len() ==> is_live(required, events, path, #[trigger] needed[i])
}

/// Whether the last that is made known of the USB device at `path` is an addition.
pub open spec fn is_told_added(
    required: Required,
    events: Seq<DeviceEventView>,
    path: PathView,
) -> bool
    decreases events.len(),
{
    if events.len() == 0 {
        false
    } else {
        let reached = usb_run(required, no_devices(), events.drop_last());
        match usb_step(required, reached, events.last()).1 {
            Some(output) if output.device.syspath == path => output.action == DeviceAction::Add,
            _ => is_told_added(required, events.drop_last(), path),
        }
    }
}

/// A device is ready exactly while the last that was made known of it is an addition.
pub proof fn lemma_ready_is_told(
    required: Required,
    events: Seq<DeviceEventView>,
    path: PathView,
)
    ensures
        usb_run(required, no_devices(), events).ready.contains(path) <==> is_told_added(
            required,
            events,
            path,
        ),
    decreases events.len(),
{
    if events.len() > 0 {
        lemma_ready_is_told(required, events.drop_last(), path);
    }
}

/// Whether a device that was made known as added is only ever told of interfaces that it has: no
/// addition names another until the device has been made known as removed.
pub open spec fn keeps_interfaces(
    required: Required,
    events: Seq<DeviceEventView>,
    path: PathView,
) -> bool {
    forall|k: int|
        0 <= k < events.len() && concerns(required, #[trigger] events[k], path) && events[k].action
            == DeviceAction::Add && is_told_added(required, events.take(k), path) ==> is_live(
            required,
            events.take(k),
            path,
            events[k].device.interface_number,
        )
}

proof fn lemma_keeps_interfaces_before(
    required: Required,
    events: Seq<DeviceEventView>,
    path: PathView,
)
    requires
        keeps_interfaces(required, events, path),
        events.len() > 0,
    ensures
        keeps_interfaces(required, events.drop_last(), path),
{
    let less = events.drop_last();
    assert forall|k: int|
        0 <= k < less.len() && concerns(required, #[trigger] less[k], path) && less[k].action
            == DeviceAction::Add && is_told_added(required, less.take(k), path) implies is_live(
        required,
        less.take(k),
        path,
        less[k].device.interface_number,
    ) by {
        assert(less[k] == events[k]);
        assert(less.take(k) =~= events.take(k));
    }
}

/// The interfaces of a device that are there are those that are live.
pub proof fn lemma_connected_is_live(
    required: Required,
    events: Seq<DeviceEventView>,
    path: PathView,
    number: u8,
)
    requires
        keeps_interfaces(required, events, path),
    ensures
        interfaces_at(usb_run(required, no_devices(), events), path).contains_key(number)
            <==> is_live(required, events, path, number),
    decreases events.len(),
{
    if events.len() > 0 {
        let less = events.drop_last();
        let last = events.len() - 1;
        lemma_keeps_interfaces_before(required, events, path);
        lemma_connected_is_live(required, less, path, number);
        lemma_connected_is_live(required, less, path, events.last().device.interface_number);
        lemma_ready_is_told(required, less, path);
        assert(events.take(last) =~= less);
        assert(events[last] == events.last());
    }
}

/// An addition of a device is made known exactly when an interface of it that is needed is added,
/// the last that was made known of the device is not an addition, and all the interfaces that are
/// needed of its product are live.
pub proof fn lemma_added_once_complete(
    required: Required,
    events: Seq<DeviceEventView>,
    path: PathView,
    i: int,
)
    requires
        0 <= i < events.len(),
        keeps_interfaces(required, events, path),
    ensures
        tells(usb_output(required, no_devices(), events, i), DeviceAction::Add, path) <==> {
            &&& concerns(required, events[i], path)
            &&& events[i].action == DeviceAction::Add
            &&& !is_told_added(required, events.take(i), path)
            &&& all_live(
                required,
                events.take(i + 1),
                path,
                required[events[i].device.product_id],
            )
        },
{
    let upto = events.take(i + 1);
    let before = events.take(i);
    assert(upto.drop_last() =~= before);
    assert(upto.last() == events[i]);
    assert(keeps_interfaces(required, upto, path)) by {
        assert forall|k: int|
            0 <= k < upto.len() && concerns(required, #[trigger] upto[k], path) && upto[k].action
                == DeviceAction::Add && is_told_added(
                required,
                upto.take(k),
                path,
            ) implies is_live(required, upto.take(k), path, upto[k].device.interface_number) by {
            assert(upto[k] == events[k]);
            assert(upto.take(k) =~= events.take(k));
        }
    }
    lemma_ready_is_told(required, before, path);
    let reached = usb_run(required, no_devices(), before);
    let after = usb_run(required, no_devices(), upto);
    if concerns(required, events[i], path) && events[i].action == DeviceAction::Add
        && !reached.ready.contains(path) {
        let needed = required[events[i].device.product_id];
        let device = events[i].device;
        let more = interfaces_at(reached, path).insert(device.interface_number, device.devnode);
        assert(interfaces_at(after, path) == more);
        assert forall|n: int| 0 <= n < needed.len() implies more.contains_key(
            #[trigger] needed[n],
        ) == is_live(required, upto, path, needed[n]) by {
            lemma_connected_is_live(required, upto, path, needed[n]);
        }
    }
}

/// Whether the events about interfaces of the USB device at `path` that are needed are all of the
/// product `pid`.
pub open spec fn is_one_product(
    required: Required,
    events: Seq<DeviceEventView>,
    path: PathView,
    pid: u16,
) -> bool {
    forall|k: int|
        0 <= k < events.len() && concerns(required, #[trigger] events[k], path)
            ==> events[k].device.product_id == pid
}

/// A device of one product that is ready has all that is needed of the product.
proof fn lemma_ready_has_all(
    required: Required,
    events: Seq<DeviceEventView>,
    path: PathView,
    pid: u16,
)
    requires
        is_one_product(required, events, path, pid),
    ensures
        ({
            let state = usb_run(required, no_devices(), events);
            state.ready.contains(path) ==> all_connected(required[pid], interfaces_at(state, path))
        }),
    decreases events.len(),
{
    if events.len() > 0 {
        let less = events.drop_last();
        assert forall|k: int|
            0 <= k < less.len() && concerns(required, #[trigger] less[k], path) implies
            less[k].device.product_id == pid by {
            assert(less[k] == events[k]);
        }
        lemma_ready_has_all(required, less, path, pid);
        assert(events[events.len() - 1] == events.last());
    }
}

/// As long as the product at `path` does not change, the device keeps its interfaces.
pub proof fn lemma_one_product_keeps_interfaces(
    required: Required,
    events: Seq<DeviceEventView>,
    path: PathView,
    pid: u16,
)
    requires
        is_one_product(required, events, path, pid),
    ensures
        keeps_interfaces(required, events, path),
    decreases events.len(),
{
    if events.len() > 0 {
        let less = events.drop_last();
        let last = events.len() - 1;
        assert(is_one_product(required, less, path, pid)) by {
            assert forall|k: int|
                0 <= k < less.len() && concerns(required, #[trigger] less[k], path) implies
                less[k].device.product_id == pid by {
                assert(less[k] == events[k]);
            }
        }
        lemma_one_product_keeps_interfaces(required, less, path, pid);
        assert forall|k: int|
            0 <= k < events.len() && concerns(required, #[trigger] events[k], path)
                && events[k].action == DeviceAction::Add && is_told_added(
                required,
                events.take(k),
                path,
            ) implies is_live(
            required,
            events.take(k),
            path,
            events[k].device.interface_number,
        ) by {
            if k == last {
                let device = events[k].device;
                assert(events.take(k) =~= less);
                lemma_ready_is_told(required, less, path);
                lemma_ready_has_all(required, less, path, pid);
                lemma_connected_is_live(required, less, path, device.interface_number);
                let needed = required[pid];
                let n = choose|n: int|
                    0 <= n < needed.len() && needed[n] == device.interface_number;
                assert(needed[n] == device.interface_number);
            } else {
                assert(less[k] == events[k]);
                assert(less.take(k) =~= events.take(k));
            }
        }
    }
}

/// Events mean one after the other what each of them means in the state that those before it led
/// to.
pub proof fn lemma_events_one_by_one(
    required: Required,
    state: UsbState,
    a: Seq<DeviceEventView>,
    b: Seq<DeviceEventView>,
    event: DeviceEventView,
)
    ensures
        usb_run(required, state, Seq::empty()) == state,
        usb_run(required, state, seq![event]) == usb_step(required, state, event).0,
        usb_run(required, state, a + b) == usb_run(required, usb_run(required, state, a), b),
        usb_outputs(required, state, Seq::empty()) == Seq::<UsbEventView>::empty(),
        usb_outputs(required, state, seq![event]) == (match usb_step(required, state, event).1 {
            Some(told) => seq![told],
            None => Seq::empty(),
        }),
        usb_outputs(required, state, a + b) == usb_outputs(required, state, a) + usb_outputs(
            required,
            usb_run(required, state, a),
            b,
        ),
    decreases b.len(),
{
    reveal_with_fuel(usb_run, 2);
    reveal_with_fuel(usb_outputs, 2);
    assert(seq![event].drop_last() =~= Seq::empty());
    assert(seq![event].last() == event);
    if b.len() == 0 {
        assert(a + b =~= a);
        assert(usb_outputs(required, state, a) + usb_outputs(
            required,
            usb_run(required, state, a),
            b,
        ) =~= usb_outputs(required, state, a));
    } else {
        lemma_events_one_by_one(required, state, a, b.drop_last(), event);
        assert((a + b).drop_last() =~= a + b.drop_last());
        assert((a + b).last() == b.last());
        let middle = usb_run(required, state, a);
        assert(usb_outputs(required, state, a + b) =~= usb_outputs(required, state, a)
            + usb_outputs(required, middle, b));
    }
    assert(usb_outputs(required, state, seq![event]) =~= (match usb_step(
        required,
        state,
        event,
    ).1 {
        Some(told) => seq![told],
        None => Seq::empty(),
    }));
}

/// The known devices and the USB devices after `events`, where there was nothing before them.
pub open spec fn monitor_run(vid: u16, required: Required, events: Seq<UdevEvent>) -> (
    KnownDevices,
    UsbState,
)
    decreases events.len(),
{
    if events.len() == 0 {
        (KnownDevices::empty(), no_devices())
    } else {
        let (known, state) = monitor_run(vid, required, events.drop_last());
        let (after, reached, _) = event_step(vid, known, required, state, events.last());
        (after, reached)
    }
}

/// What is made known of the event at position `i` of `events`.
pub open spec fn monitor_output(
    vid: u16,
    required: Required,
    events: Seq<UdevEvent>,
    i: int,
) -> Option<UsbEventView> {
    let (known, state) = monitor_run(vid, required, events.take(i));
    event_step(vid, known, required, state, events[i]).2
}

/// Whether with the event at position `k` udev gave the interface `number` of the USB device at
/// `path` the node `node`.
pub open spec fn is_node_of_udev(
    events: Seq<UdevEvent>,
    path: PathView,
    number: u8,
    node: Seq<u8>,
    k: int,
) -> bool {
    &&& 0 <= k < events.len()
    &&& events[k] matches UdevEvent::Add(device) && {
        &&& device.devnode is Some
        &&& device.devnode->0@ == node
        &&& device.usb_device is Some
        &&& device.usb_device->0.syspath@ == path
        &&& device.usb_interface is Some
        &&& tells_interface(device.usb_interface->0, number)
    }
}

proof fn lemma_nodes_stay(
    events: Seq<UdevEvent>,
    path: PathView,
    number: u8,
    node: Seq<u8>,
)
    requires
        events.len() > 0,
        exists|k: int| #[trigger] is_node_of_udev(events.drop_last(), path, number, node, k),
    ensures
        exists|k: int| #[trigger] is_node_of_udev(events, path, number, node, k),
{
    let k = choose|k: int| #[trigger] is_node_of_udev(events.drop_last(), path, number, node, k);
    assert(events.drop_last()[k] == events[k]);
    assert(is_node_of_udev(events, path, number, node, k));
}

proof fn lemma_connected_nodes(
    vid: u16,
    required: Required,
    events: Seq<UdevEvent>,
    path: PathView,
    number: u8,
)
    ensures
        ({
            let state = monitor_run(vid, required, events).1;
            is_there(state, path, number) ==> exists|k: int| #[trigger]
                is_node_of_udev(events, path, number, state.connected[path][number], k)
        }),
    decreases events.len(),
{
    if events.len() > 0 {
        let less = events.drop_last();
        let last = events.len() - 1;
        let (known, before) = monitor_run(vid, required, less);
        let after = monitor_run(vid, required, events).1;
        lemma_connected_nodes(vid, required, less, path, number);
        if is_there(after, path, number) {
            let node = after.connected[path][number];
            if is_there(before, path, number) && before.connected[path][number] == node {
                lemma_nodes_stay(events, path, number, node);
            } else {
                let told = device_step(vid, known, events.last()).1;
                assert(told is Some);
                assert(told->0.action == DeviceAction::Add);
                assert(events.last() is Add);
                let device = events.last()->Add_0;
                lemma_device_kept(device, vid);
                assert(told->0.device.usb_device_syspath == path);
                assert(told->0.device.interface_number == number);
                assert(is_node_of_udev(events, path, number, node, last));
            }
        }
    }
}

/// An addition that is made known names the USB device by the name, the path and the product id
/// that udev told last, and every node in it is the node that udev gave for that interface of that
/// device, byte for byte.
pub proof fn lemma_nodes_are_those_of_udev(
    vid: u16,
    required: Required,
    events: Seq<UdevEvent>,
    i: int,
)
    requires
        0 <= i < events.len(),
        monitor_output(vid, required, events, i) matches Some(told) && told.action
            == DeviceAction::Add,
    ensures
        ({
            let told = monitor_output(vid, required, events, i)->0.device;
            &&& events[i] matches UdevEvent::Add(device) && {
                &&& device.usb_device is Some
                &&& told.sysname == device.usb_device->0.sysname@
                &&& told.syspath == device.usb_device->0.syspath@
                &&& device.usb_device->0.id_product is Some
                &&& hex_number(device.usb_device->0.id_product->0@, 0xffff) == Some(
                    told.product_id as nat,
                )
            }
            &&& forall|number: u8| #[trigger]
                told.hid_interfaces.contains_key(number) ==> exists|k: int| #[trigger]
                    is_node_of_udev(
                        events.take(i + 1),
                        told.syspath,
                        number,
                        told.hid_interfaces[number],
                        k,
                    )
        }),
{
    let upto = events.take(i + 1);
    assert(upto.drop_last() =~= events.take(i));
    assert(upto.last() == events[i]);
    let told = monitor_output(vid, required, events, i)->0.device;
    let after = monitor_run(vid, required, upto).1;
    assert(events[i] is Add);
    lemma_device_kept(events[i]->Add_0, vid);
    assert(after.connected[told.syspath] == told.hid_interfaces);
    assert forall|number: u8| #[trigger] told.hid_interfaces.contains_key(number) implies (exists|
        k: int|
        #[trigger] is_node_of_udev(upto, told.syspath, number, told.hid_interfaces[number], k)) by {
        lemma_connected_nodes(vid, required, upto, told.syspath, number);
        assert(is_there(after, told.syspath, number));
    }
}

} // verus!
