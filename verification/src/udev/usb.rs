//! USB devices, which are ready once all the interfaces that are needed are there.

use std::collections::BTreeMap;

use vstd::prelude::*;

use crate::path::{PathView, SysPath};
use crate::path_map::PathMap;
use crate::udev::{
    adds_each, device_step, devices_found, event_views, DeviceAction, DeviceEvent, DeviceEventView,
    DeviceInfoView, DeviceMonitor, KnownDevices, UdevDevice, UdevEvent,
};

verus! {

broadcast use vstd::laws_cmp::group_laws_cmp;

/// A USB device became ready, or is no longer complete.
pub struct UsbDeviceEvent {
    pub action: DeviceAction,
    pub device: UsbDeviceInfo,
}

/// A USB device.
pub struct UsbDeviceInfo {
    pub sysname: Vec<u8>,
    pub syspath: SysPath,
    pub product_id: u16,
    /// The device nodes (`/dev/hidraw*`) by interface number.
    pub hid_interfaces: BTreeMap<u8, Vec<u8>>,
}

/// The mathematical value of a [`UsbDeviceInfo`].
pub struct UsbDeviceView {
    pub sysname: Seq<u8>,
    pub syspath: PathView,
    pub product_id: u16,
    pub hid_interfaces: Map<u8, Seq<u8>>,
}

/// The mathematical value of a [`UsbDeviceEvent`].
pub struct UsbEventView {
    pub action: DeviceAction,
    pub device: UsbDeviceView,
}

/// The device nodes by interface number.
pub open spec fn interfaces_view(interfaces: BTreeMap<u8, Vec<u8>>) -> Map<u8, Seq<u8>> {
    interfaces@.map_values(|devnode: Vec<u8>| devnode@)
}

impl View for UsbDeviceInfo {
    type V = UsbDeviceView;

    open spec fn view(&self) -> UsbDeviceView {
        UsbDeviceView {
            sysname: self.sysname@,
            syspath: self.syspath@,
            product_id: self.product_id,
            hid_interfaces: interfaces_view(self.hid_interfaces),
        }
    }
}

impl View for UsbDeviceEvent {
    type V = UsbEventView;

    open spec fn view(&self) -> UsbEventView {
        UsbEventView { action: self.action, device: self.device@ }
    }
}

/// The interfaces that are needed of each product.
pub type Required = Map<u16, Seq<u8>>;

/// Which interfaces of which USB devices are there, and which devices are ready.
pub struct UsbState {
    pub connected: Map<PathView, Map<u8, Seq<u8>>>,
    pub ready: Set<PathView>,
}

/// No device is there.
pub open spec fn no_devices() -> UsbState {
    UsbState { connected: Map::empty(), ready: Set::empty() }
}

/// Whether the device is an interface that is needed of its product.
pub open spec fn is_required(required: Required, device: DeviceInfoView) -> bool {
    &&& required.contains_key(device.product_id)
    &&& required[device.product_id].contains(device.interface_number)
}

/// Whether all of the `needed` interfaces are there.
pub open spec fn all_connected(needed: Seq<u8>, interfaces: Map<u8, Seq<u8>>) -> bool {
    forall|i: int| 0 <= i < needed.len() ==> interfaces.contains_key(#[trigger] needed[i])
}

/// The interfaces of the USB device at `path` that are there.
pub open spec fn interfaces_at(state: UsbState, path: PathView) -> Map<u8, Seq<u8>> {
    if state.connected.contains_key(path) {
        state.connected[path]
    } else {
        Map::empty()
    }
}

/// What is made known of the USB device of which `device` is an interface.
pub open spec fn usb_event(
    action: DeviceAction,
    device: DeviceInfoView,
    hid_interfaces: Map<u8, Seq<u8>>,
) -> UsbEventView {
    UsbEventView {
        action,
        device: UsbDeviceView {
            sysname: device.usb_device_sysname,
            syspath: device.usb_device_syspath,
            product_id: device.product_id,
            hid_interfaces,
        },
    }
}

/// What an event does to the USB devices, and what is made known of it: an addition once all
/// needed interfaces are there, and a removal whenever one of them goes.
pub open spec fn usb_step(required: Required, state: UsbState, event: DeviceEventView) -> (
    UsbState,
    Option<UsbEventView>,
) {
    let device = event.device;
    let path = device.usb_device_syspath;
    let interfaces = interfaces_at(state, path);
    if !is_required(required, device) {
        (state, None)
    } else {
        match event.action {
            DeviceAction::Add => if state.ready.contains(path) {
                (state, None)
            } else {
                let more = interfaces.insert(device.interface_number, device.devnode);
                let connected = state.connected.insert(path, more);
                if all_connected(required[device.product_id], more) {
                    (
                        UsbState { connected, ready: state.ready.insert(path) },
                        Some(usb_event(DeviceAction::Add, device, more)),
                    )
                } else {
                    (UsbState { connected, ready: state.ready }, None)
                }
            },
            DeviceAction::Remove => if interfaces.contains_key(device.interface_number) {
                let less = interfaces.remove(device.interface_number);
                let connected = if less == Map::<u8, Seq<u8>>::empty() {
                    state.connected.remove(path)
                } else {
                    state.connected.insert(path, less)
                };
                (
                    UsbState { connected, ready: state.ready.remove(path) },
                    Some(usb_event(DeviceAction::Remove, device, Map::empty())),
                )
            } else {
                (state, None)
            },
        }
    }
}

/// The state after `events`.
pub open spec fn usb_run(
    required: Required,
    state: UsbState,
    events: Seq<DeviceEventView>,
) -> UsbState
    decreases events.len(),
{
    if events.len() == 0 {
        state
    } else {
        usb_step(required, usb_run(required, state, events.drop_last()), events.last()).0
    }
}

/// What is made known of the event at position `i` of `events`.
pub open spec fn usb_output(
    required: Required,
    state: UsbState,
    events: Seq<DeviceEventView>,
    i: int,
) -> Option<UsbEventView> {
    usb_step(required, usb_run(required, state, events.take(i)), events[i]).1
}

/// What is made known of `events`, in order.
pub open spec fn usb_outputs(
    required: Required,
    state: UsbState,
    events: Seq<DeviceEventView>,
) -> Seq<UsbEventView>
    decreases events.len(),
{
    if events.len() == 0 {
        Seq::empty()
    } else {
        let before = usb_outputs(required, state, events.drop_last());
        let reached = usb_run(required, state, events.drop_last());
        match usb_step(required, reached, events.last()).1 {
            Some(output) => before.push(output),
            None => before,
        }
    }
}

/// The values of `events`.
pub open spec fn usb_event_views(events: Seq<UsbDeviceEvent>) -> Seq<UsbEventView> {
    Seq::new(events.len(), |i: int| events[i]@)
}

/// Watches the USB devices of one vendor, as far as they are of products that were asked for.
pub struct UsbMonitor {
    monitor: DeviceMonitor,
    required_interfaces: BTreeMap<u16, Vec<u8>>,
    connected_interfaces: PathMap<BTreeMap<u8, Vec<u8>>>,
    ready_devices: PathMap<()>,
}

impl UsbMonitor {
    /// The vendor.
    pub closed spec fn vendor_id(self) -> u16 {
        self.monitor.vendor_id()
    }

    /// The hidraw devices that are there.
    pub closed spec fn known(self) -> KnownDevices {
        self.monitor.known()
    }

    /// The interfaces that are needed of each product.
    pub closed spec fn required(self) -> Required {
        self.required_interfaces@.map_values(|interfaces: Vec<u8>| interfaces@)
    }

    /// The USB devices.
    pub closed spec fn state(self) -> UsbState {
        UsbState {
            connected: self.connected_interfaces@.map_values(
                |interfaces: BTreeMap<u8, Vec<u8>>| interfaces_view(interfaces),
            ),
            ready: self.ready_devices@.dom(),
        }
    }

    /// The invariant of the collections.
    pub closed spec fn wf(self) -> bool {
        &&& self.monitor.wf()
        &&& self.connected_interfaces.wf()
        &&& self.ready_devices.wf()
    }

    /// A monitor of no product.
    pub fn new(vendor_id: u16) -> (monitor: UsbMonitor)
        ensures
            monitor.wf(),
            monitor.vendor_id() == vendor_id,
            monitor.known() == KnownDevices::empty(),
            monitor.required() == Required::empty(),
            monitor.state() == no_devices(),
    {
        let monitor = UsbMonitor {
            monitor: DeviceMonitor::new(vendor_id),
            required_interfaces: BTreeMap::new(),
            connected_interfaces: PathMap::new(),
            ready_devices: PathMap::new(),
        };
        assert(monitor.required() =~= Required::empty());
        assert(monitor.state().connected =~= no_devices().connected);
        assert(monitor.state().ready =~= no_devices().ready);
        monitor
    }

    /// Asks for a product, of which `interfaces` are needed.
    pub fn with_product(self, pid: u16, interfaces: Vec<u8>) -> (monitor: UsbMonitor)
        requires
            self.wf(),
        ensures
            monitor.wf(),
            monitor.vendor_id() == self.vendor_id(),
            monitor.known() == self.known(),
            monitor.required() == self.required().insert(pid, interfaces@),
            monitor.state() == self.state(),
    {
        let mut required_interfaces = self.required_interfaces;
        required_interfaces.insert(pid, interfaces);
        let monitor = UsbMonitor {
            monitor: self.monitor,
            required_interfaces,
            connected_interfaces: self.connected_interfaces,
            ready_devices: self.ready_devices,
        };
        assert(monitor.required() =~= self.required().insert(pid, interfaces@));
        monitor
    }

    /// What an event about a hidraw device means for its USB device.
    pub fn emit_event(&mut self, event: DeviceEvent) -> (made_known: Option<UsbDeviceEvent>)
        requires
            old(self).wf(),
        ensures
            final(self).wf(),
            final(self).vendor_id() == old(self).vendor_id(),
            final(self).known() == old(self).known(),
            final(self).required() == old(self).required(),
            ({
                let (state, view) = usb_step(old(self).required(), old(self).state(), event@);
                &&& final(self).state() == state
                &&& made_known is Some <==> view is Some
                &&& made_known matches Some(e) ==> view == Some(e@)
            }),
    {
        let ghost required = self.required();
        let ghost before = self.state();
        let device = event.device;
        let ghost path = device@.usb_device_syspath;
        let needed = match self.required_interfaces.get(&device.product_id) {
            Some(needed) => needed,
            None => {
                return None;
            },
        };
        assert(needed@ == required[device.product_id]);
        if !contains(needed, device.interface_number) {
            return None;
        }
        match event.action {
            DeviceAction::Add => {
                if self.ready_devices.contains_key(&device.usb_device_syspath) {
                    return None;
                }
                let mut interfaces: BTreeMap<u8, Vec<u8>> = match self.connected_interfaces.get(
                    &device.usb_device_syspath,
                ) {
                    Some(interfaces) => interfaces.clone(),
                    None => BTreeMap::new(),
                };
                assert(interfaces_view(interfaces) =~= interfaces_at(before, path));
                interfaces.insert(device.interface_number, device.devnode);
                let ghost more = interfaces_at(before, path).insert(
                    device.interface_number,
                    device@.devnode,
                );
                assert(interfaces_view(interfaces) =~= more);
                let complete = contains_all(&interfaces, needed);
                self.connected_interfaces.insert(
                    device.usb_device_syspath.duplicate(),
                    interfaces.clone(),
                );
                assert(self.state().connected =~= before.connected.insert(path, more));
                if !complete {
                    return None;
                }
                self.ready_devices.insert(device.usb_device_syspath.duplicate(), ());
                assert(self.state().ready =~= before.ready.insert(path));
                Some(
                    UsbDeviceEvent {
                        action: DeviceAction::Add,
                        device: UsbDeviceInfo {
                            sysname: device.usb_device_sysname,
                            syspath: device.usb_device_syspath,
                            product_id: device.product_id,
                            hid_interfaces: interfaces,
                        },
                    },
                )
            },
            DeviceAction::Remove => {
                let mut interfaces: BTreeMap<u8, Vec<u8>> = match self.connected_interfaces.get(
                    &device.usb_device_syspath,
                ) {
                    Some(interfaces) => interfaces.clone(),
                    None => {
                        return None;
                    },
                };
                assert(interfaces_view(interfaces) =~= interfaces_at(before, path));
                if interfaces.remove(&device.interface_number).is_none() {
                    return None;
                }
                let ghost less = interfaces_at(before, path).remove(device.interface_number);
                assert(interfaces_view(interfaces) =~= less);
                self.ready_devices.remove(&device.usb_device_syspath);
                assert(self.state().ready =~= before.ready.remove(path));
                if interfaces.is_empty() {
                    assert(less =~= Map::empty());
                    self.connected_interfaces.remove(&device.usb_device_syspath);
                    assert(self.state().connected =~= before.connected.remove(path));
                } else {
                    assert(less != Map::<u8, Seq<u8>>::empty()) by {
                        assert(less.dom() =~= interfaces@.dom());
                        if less == Map::<u8, Seq<u8>>::empty() {
                            assert(interfaces@ =~= Map::empty());
                        }
                    }
                    self.connected_interfaces.insert(
                        device.usb_device_syspath.duplicate(),
                        interfaces,
                    );
                    assert(self.state().connected =~= before.connected.insert(path, less));
                }
                let none: BTreeMap<u8, Vec<u8>> = BTreeMap::new();
                assert(interfaces_view(none) =~= Map::empty());
                Some(
                    UsbDeviceEvent {
                        action: DeviceAction::Remove,
                        device: UsbDeviceInfo {
                            sysname: device.usb_device_sysname,
                            syspath: device.usb_device_syspath,
                            product_id: device.product_id,
                            hid_interfaces: none,
                        },
                    },
                )
            },
        }
    }

    /// What an event means.
    pub fn handle_event(&mut self, event: UdevEvent) -> (made_known: Option<UsbDeviceEvent>)
        requires
            old(self).wf(),
        ensures
            final(self).wf(),
            final(self).vendor_id() == old(self).vendor_id(),
            final(self).required() == old(self).required(),
            ({
                let (known, state, view) = event_step(
                    old(self).vendor_id(),
                    old(self).known(),
                    old(self).required(),
                    old(self).state(),
                    event,
                );
                &&& final(self).known() == known
                &&& final(self).state() == state
                &&& made_known is Some <==> view is Some
                &&& made_known matches Some(e) ==> view == Some(e@)
            }),
    {
        match self.monitor.handle_event(event) {
            Some(event) => self.emit_event(event),
            None => None,
        }
    }

    /// What comes of a read of an event: an error is handed on, and changes nothing.
    pub fn handle_read<E>(&mut self, read: Result<UdevEvent, E>) -> (made_known: Option<
        Result<UsbDeviceEvent, E>,
    >)
        requires
            old(self).wf(),
        ensures
            final(self).wf(),
            final(self).vendor_id() == old(self).vendor_id(),
            final(self).required() == old(self).required(),
            match read {
                Ok(event) => {
                    let (known, state, view) = event_step(
                        old(self).vendor_id(),
                        old(self).known(),
                        old(self).required(),
                        old(self).state(),
                        event,
                    );
                    &&& final(self).known() == known
                    &&& final(self).state() == state
                    &&& made_known is Some <==> view is Some
                    &&& made_known matches Some(told) ==> told matches Ok(e) && view == Some(e@)
                },
                Err(error) => {
                    &&& *final(self) == *old(self)
                    &&& made_known == Some(Err::<UsbDeviceEvent, E>(error))
                },
            },
    {
        match read {
            Ok(event) => match self.handle_event(event) {
                Some(event) => Some(Ok(event)),
                None => None,
            },
            Err(error) => Some(Err(error)),
        }
    }

    /// Takes in the devices that are there at the start. In which order is not specified.
    pub fn scan(&mut self, found: Vec<UdevDevice>) -> (made_known: Vec<UsbDeviceEvent>)
        requires
            old(self).wf(),
        ensures
            final(self).wf(),
            final(self).vendor_id() == old(self).vendor_id(),
            final(self).required() == old(self).required(),
            final(self).known() == devices_found(
                old(self).vendor_id(),
                old(self).known(),
                found@,
            ),
            exists|order: Seq<DeviceEventView>|
                {
                    &&& #[trigger] adds_each(final(self).known(), order)
                    &&& final(self).state() == usb_run(
                        old(self).required(),
                        old(self).state(),
                        order,
                    )
                    &&& usb_event_views(made_known@) == usb_outputs(
                        old(self).required(),
                        old(self).state(),
                        order,
                    )
                },
    {
        let ghost required = self.required();
        let ghost start = self.state();
        let events = self.monitor.scan(found);
        let ghost all = events@;
        let ghost order = event_views(all);
        let mut made_known: Vec<UsbDeviceEvent> = Vec::new();
        assert(order.take(0) =~= Seq::empty());
        assert(usb_event_views(made_known@) =~= Seq::empty());
        for event in device_events: events
            invariant
                self.wf(),
                device_events.seq() == all,
                order == event_views(all),
                self.vendor_id() == old(self).vendor_id(),
                self.required() == required,
                self.known() == devices_found(
                    old(self).vendor_id(),
                    old(self).known(),
                    found@,
                ),
                self.state() == usb_run(
                    required,
                    start,
                    order.take(device_events.index() as int),
                ),
                usb_event_views(made_known@) == usb_outputs(
                    required,
                    start,
                    order.take(device_events.index() as int),
                ),
        {
            let ghost views = usb_event_views(made_known@);
            proof {
                let next = order.take(device_events.index() + 1);
                assert(next.drop_last() =~= order.take(device_events.index() as int));
                assert(next.last() == event@);
            }
            if let Some(usb_event) = self.emit_event(event) {
                made_known.push(usb_event);
                assert(usb_event_views(made_known@) =~= views.push(usb_event@));
            }
        }
        assert(order.take(order.len() as int) =~= order);
        made_known
    }
}

/// What an event does to the known devices and to the USB devices, and what is made known of it.
pub open spec fn event_step(
    vid: u16,
    known: KnownDevices,
    required: Required,
    state: UsbState,
    event: UdevEvent,
) -> (KnownDevices, UsbState, Option<UsbEventView>) {
    let (after, device_event) = device_step(vid, known, event);
    match device_event {
        Some(device_event) => {
            let (reached, view) = usb_step(required, state, device_event);
            (after, reached, view)
        },
        None => (after, state, None),
    }
}

/// Whether `numbers` contains `number`.
fn contains(numbers: &Vec<u8>, number: u8) -> (found: bool)
    ensures
        found == numbers@.contains(number),
{
    let mut i: usize = 0;
    while i < numbers.len()
        invariant
            i <= numbers.len(),
            forall|j: int| 0 <= j < i ==> numbers[j] != number,
        decreases numbers.len() - i,
    {
        if numbers[i] == number {
            assert(numbers@[i as int] == number);
            return true;
        }
        i += 1;
    }
    false
}

/// Whether all of the `needed` interfaces are there.
fn contains_all(interfaces: &BTreeMap<u8, Vec<u8>>, needed: &Vec<u8>) -> (all: bool)
    ensures
        all == all_connected(needed@, interfaces_view(*interfaces)),
{
    let mut i: usize = 0;
    while i < needed.len()
        invariant
            i <= needed.len(),
            forall|j: int|
                0 <= j < i ==> interfaces_view(*interfaces).contains_key(#[trigger] needed@[j]),
        decreases needed.len() - i,
    {
        let number: u8 = needed[i];
        if !interfaces.contains_key(&number) {
            assert(!interfaces_view(*interfaces).contains_key(needed@[i as int]));
            return false;
        }
        i += 1;
    }
    true
}

/// What holds of the USB devices at all times: a device of which an interface is there is not
/// forgotten, one of which none is there is, and a ready device is complete.
pub open spec fn usb_invariant(required: Required, state: UsbState) -> bool {
    &&& forall|path: PathView| #[trigger]
        state.connected.contains_key(path) ==> state.connected[path] != Map::<
            u8,
            Seq<u8>,
        >::empty()
    &&& forall|path: PathView| #[trigger]
        state.ready.contains(path) ==> {
            &&& state.connected.contains_key(path)
            &&& exists|pid: u16| #[trigger]
                required.contains_key(pid) && all_connected(required[pid], state.connected[path])
        }
}

/// The invariant holds at the start and every event keeps it, for one set of required interfaces.
pub proof fn lemma_usb_invariant(required: Required, state: UsbState, event: DeviceEventView)
    ensures
        usb_invariant(required, no_devices()),
        usb_invariant(required, state) ==> usb_invariant(
            required,
            usb_step(required, state, event).0,
        ),
{
    if usb_invariant(required, state) {
        let device = event.device;
        let at = device.usb_device_syspath;
        let after = usb_step(required, state, event).0;
        let interfaces = interfaces_at(state, at);
        let more = interfaces.insert(device.interface_number, device.devnode);
        assert(more.contains_key(device.interface_number));
        assert(!Map::<u8, Seq<u8>>::empty().contains_key(device.interface_number));
        assert forall|path: PathView| #[trigger] after.ready.contains(path) implies {
            &&& after.connected.contains_key(path)
            &&& exists|pid: u16| #[trigger]
                required.contains_key(pid) && all_connected(required[pid], after.connected[path])
        } by {
            if path == at {
                if !state.ready.contains(path) {
                    assert(required.contains_key(device.product_id));
                }
            } else {
                assert(state.ready.contains(path));
            }
        }
    }
}

/// The invariant holds after any events.
pub proof fn lemma_usb_run_invariant(required: Required, events: Seq<DeviceEventView>)
    ensures
        usb_invariant(required, usb_run(required, no_devices(), events)),
    decreases events.len(),
{
    if events.len() > 0 {
        lemma_usb_run_invariant(required, events.drop_last());
        lemma_usb_invariant(
            required,
            usb_run(required, no_devices(), events.drop_last()),
            events.last(),
        );
    }
}

/// An addition is made known only of a device that was not ready; it then is, and the addition
/// tells the nodes of all the interfaces that are there, those needed of the product among them.
pub proof fn lemma_addition_is_complete(required: Required, state: UsbState, event: DeviceEventView)
    requires
        usb_step(required, state, event).1 matches Some(e) && e.action == DeviceAction::Add,
    ensures
        ({
            let (after, output) = usb_step(required, state, event);
            let added = output->0.device;
            &&& event.action == DeviceAction::Add
            &&& !state.ready.contains(added.syspath)
            &&& after.ready.contains(added.syspath)
            &&& added.hid_interfaces == interfaces_at(after, added.syspath)
            &&& required.contains_key(added.product_id)
            &&& all_connected(required[added.product_id], added.hid_interfaces)
        }),
{
}

/// A device stops being ready only where its removal is made known.
pub proof fn lemma_ready_until_removed(
    required: Required,
    state: UsbState,
    event: DeviceEventView,
    path: PathView,
)
    requires
        state.ready.contains(path),
        !usb_step(required, state, event).0.ready.contains(path),
    ensures
        usb_step(required, state, event).1 matches Some(e) && e.action == DeviceAction::Remove
            && e.device.syspath == path,
{
}

/// An event about one USB device leaves the others as they are.
pub proof fn lemma_other_usb_devices_stay(
    required: Required,
    state: UsbState,
    event: DeviceEventView,
    other: PathView,
)
    requires
        event.device.usb_device_syspath != other,
    ensures
        ({
            let after = usb_step(required, state, event).0;
            &&& after.ready.contains(other) == state.ready.contains(other)
            &&& after.connected.contains_key(other) == state.connected.contains_key(other)
            &&& interfaces_at(after, other) == interfaces_at(state, other)
        }),
{
}

/// Whether an output makes the action `action` known of the device at `path`.
pub open spec fn tells(output: Option<UsbEventView>, action: DeviceAction, path: PathView) -> bool {
    output matches Some(e) && e.action == action && e.device.syspath == path
}

proof fn lemma_stays_ready(
    required: Required,
    state: UsbState,
    events: Seq<DeviceEventView>,
    path: PathView,
    from: int,
    to: int,
)
    requires
        0 <= from <= to <= events.len(),
        usb_run(required, state, events.take(from)).ready.contains(path),
        forall|k: int|
            from <= k < to ==> !tells(
                #[trigger] usb_output(required, state, events, k),
                DeviceAction::Remove,
                path,
            ),
    ensures
        usb_run(required, state, events.take(to)).ready.contains(path),
    decreases to - from,
{
    if from < to {
        let last = to - 1;
        lemma_stays_ready(required, state, events, path, from, last);
        assert(events.take(to).drop_last() =~= events.take(last));
        assert(events.take(to).last() == events[last]);
        let reached = usb_run(required, state, events.take(last));
        assert(!tells(usb_output(required, state, events, last), DeviceAction::Remove, path));
        if !usb_step(required, reached, events[last]).0.ready.contains(path) {
            lemma_ready_until_removed(required, reached, events[last], path);
        }
    }
}

/// Between two additions of one device its removal is made known.
pub proof fn lemma_removal_between_additions(
    required: Required,
    state: UsbState,
    events: Seq<DeviceEventView>,
    path: PathView,
    i: int,
    j: int,
)
    requires
        0 <= i < j < events.len(),
        tells(usb_output(required, state, events, i), DeviceAction::Add, path),
        tells(usb_output(required, state, events, j), DeviceAction::Add, path),
    ensures
        exists|k: int|
            i < k < j && tells(
                #[trigger] usb_output(required, state, events, k),
                DeviceAction::Remove,
                path,
            ),
{
    let first = usb_run(required, state, events.take(i));
    lemma_addition_is_complete(required, first, events[i]);
    assert(events.take(i + 1).drop_last() =~= events.take(i));
    assert(events.take(i + 1).last() == events[i]);
    let second = usb_run(required, state, events.take(j));
    lemma_addition_is_complete(required, second, events[j]);
    if forall|k: int|
        i < k < j ==> !tells(
            #[trigger] usb_output(required, state, events, k),
            DeviceAction::Remove,
            path,
        ) {
        lemma_stays_ready(required, state, events, path, i + 1, j);
    }
}

/// Once the last interface of a device has gone nothing of the device is left, so that it starts
/// over when it comes back.
pub proof fn lemma_last_interface_removed(
    required: Required,
    state: UsbState,
    device: DeviceInfoView,
)
    requires
        is_required(required, device),
        state.connected.contains_key(device.usb_device_syspath),
        state.connected[device.usb_device_syspath].dom() == set![device.interface_number],
    ensures
        ({
            let event = DeviceEventView { action: DeviceAction::Remove, device };
            let (after, output) = usb_step(required, state, event);
            &&& after.connected == state.connected.remove(device.usb_device_syspath)
            &&& after.ready == state.ready.remove(device.usb_device_syspath)
            &&& tells(output, DeviceAction::Remove, device.usb_device_syspath)
        }),
{
    let interfaces = state.connected[device.usb_device_syspath];
    assert(interfaces.contains_key(device.interface_number));
    assert(interfaces.remove(device.interface_number) =~= Map::empty());
}

/// The value of a USB device holds every byte of its name and of its nodes.
pub proof fn lemma_usb_device_value(info: UsbDeviceInfo, event: UsbDeviceEvent, number: u8)
    ensures
        info@.sysname == info.sysname@,
        info@.syspath == info.syspath@,
        info@.product_id == info.product_id,
        info@.hid_interfaces.contains_key(number) == info.hid_interfaces@.contains_key(number),
        info.hid_interfaces@.contains_key(number) ==> info@.hid_interfaces[number]
            == info.hid_interfaces@[number]@,
        event@.action == event.action,
        event@.device == event.device@,
{
}

/// The values of events are those of the events, one by one.
pub proof fn lemma_usb_event_values(events: Seq<UsbDeviceEvent>, i: int)
    ensures
        usb_event_views(events).len() == events.len(),
        0 <= i < events.len() ==> usb_event_views(events)[i].action == events[i].action,
        0 <= i < events.len() ==> usb_event_views(events)[i].device == events[i].device@,
{
}

/// Whether the interface `number` of the USB device at `path` is there.
pub open spec fn is_there(state: UsbState, path: PathView, number: u8) -> bool {
    state.connected.contains_key(path) && state.connected[path].contains_key(number)
}

/// Whether `number` is one of the interfaces that are needed of the product `pid`.
pub open spec fn is_needed(required: Required, pid: u16, number: u8) -> bool {
    required.contains_key(pid) && exists|i: int|
        0 <= i < required[pid].len() && #[trigger] required[pid][i] == number
}

/// An event about an interface that is not needed changes nothing and makes nothing known.
pub proof fn lemma_not_needed(required: Required, state: UsbState, event: DeviceEventView)
    requires
        !is_needed(required, event.device.product_id, event.device.interface_number),
    ensures
        usb_step(required, state, event).0 == state,
        usb_step(required, state, event).1 is None,
{
    let needed = required[event.device.product_id];
    if needed.contains(event.device.interface_number) {
        let i = choose|i: int|
            0 <= i < needed.len() && needed[i] == event.device.interface_number;
        assert(needed[i] == event.device.interface_number);
    }
}

/// An interface that is needed and appears while its device is not ready is there from then on,
/// with the node that the event tells, and all others stay as they were. The device is ready, and
/// is made known, exactly if all the interfaces that are needed of its product are there; what is
/// made known is the device as the event names it, with the nodes of all interfaces that are there.
/// While the device is ready the event changes nothing.
pub proof fn lemma_interface_appears(
    required: Required,
    state: UsbState,
    event: DeviceEventView,
    path: PathView,
    number: u8,
)
    requires
        event.action == DeviceAction::Add,
        is_needed(required, event.device.product_id, event.device.interface_number),
    ensures
        ({
            let device = event.device;
            let own = device.usb_device_syspath;
            let (after, told) = usb_step(required, state, event);
            let complete = forall|i: int|
                0 <= i < required[device.product_id].len() ==> is_there(
                    after,
                    own,
                    #[trigger] required[device.product_id][i],
                );
            if state.ready.contains(own) {
                after == state && told is None
            } else {
                &&& is_there(after, own, device.interface_number)
                &&& after.connected[own][device.interface_number] == device.devnode
                &&& path != own || number != device.interface_number ==> {
                    &&& is_there(after, path, number) == is_there(state, path, number)
                    &&& is_there(state, path, number) ==> after.connected[path][number]
                        == state.connected[path][number]
                }
                &&& after.ready.contains(own) == complete
                &&& path != own ==> after.ready.contains(path) == state.ready.contains(path)
                &&& told is Some == complete
                &&& told is Some ==> {
                    &&& told->0.action == DeviceAction::Add
                    &&& told->0.device.sysname == device.usb_device_sysname
                    &&& told->0.device.syspath == own
                    &&& told->0.device.product_id == device.product_id
                    &&& told->0.device.hid_interfaces == after.connected[own]
                }
            }
        }),
{
    let device = event.device;
    let own = device.usb_device_syspath;
    let needed = required[device.product_id];
    let n = choose|n: int| 0 <= n < needed.len() && #[trigger] needed[n] == device.interface_number;
    assert(needed.contains(device.interface_number));
    let (after, told) = usb_step(required, state, event);
    if !state.ready.contains(own) {
        let more = interfaces_at(state, own).insert(device.interface_number, device.devnode);
        assert(after.connected[own] == more);
        if all_connected(needed, more) {
            assert forall|i: int| 0 <= i < needed.len() implies is_there(
                after,
                own,
                #[trigger] needed[i],
            ) by {}
        }
    }
}

/// An interface that is needed and goes is there no more, and all others stay as they were. If it
/// was there its device is not ready any more and is made known as the event names it, without
/// nodes; if it was not nothing changes. A device of which no interface is left is forgotten.
pub proof fn lemma_interface_goes(
    required: Required,
    state: UsbState,
    event: DeviceEventView,
    path: PathView,
    number: u8,
)
    requires
        event.action == DeviceAction::Remove,
        is_needed(required, event.device.product_id, event.device.interface_number),
    ensures
        ({
            let device = event.device;
            let own = device.usb_device_syspath;
            let (after, told) = usb_step(required, state, event);
            &&& told is Some == is_there(state, own, device.interface_number)
            &&& told is None ==> after == state
            &&& !is_there(after, own, device.interface_number)
            &&& path != own || number != device.interface_number ==> {
                &&& is_there(after, path, number) == is_there(state, path, number)
                &&& is_there(state, path, number) ==> after.connected[path][number]
                    == state.connected[path][number]
            }
            &&& told is Some ==> {
                &&& !after.ready.contains(own)
                &&& told->0.action == DeviceAction::Remove
                &&& told->0.device.sysname == device.usb_device_sysname
                &&& told->0.device.syspath == own
                &&& told->0.device.product_id == device.product_id
                &&& !told->0.device.hid_interfaces.contains_key(number)
                &&& after.connected.contains_key(own) ==> exists|n: u8| #[trigger]
                    is_there(after, own, n)
            }
            &&& path != own ==> after.ready.contains(path) == state.ready.contains(path)
        }),
{
    let device = event.device;
    let own = device.usb_device_syspath;
    let needed = required[device.product_id];
    let n = choose|n: int| 0 <= n < needed.len() && #[trigger] needed[n] == device.interface_number;
    assert(needed.contains(device.interface_number));
    let (after, told) = usb_step(required, state, event);
    if is_there(state, own, device.interface_number) {
        let less = interfaces_at(state, own).remove(device.interface_number);
        if less == Map::<u8, Seq<u8>>::empty() {
            assert(!after.connected.contains_key(own));
            assert forall|m: u8| is_there(state, own, m) implies m == device.interface_number by {
                if m != device.interface_number {
                    assert(less.contains_key(m));
                }
            }
        } else {
            assert(after.connected[own] == less);
            if forall|m: u8| !less.contains_key(m) {
                assert(less =~= Map::empty());
            }
            let m = choose|m: u8| less.contains_key(m);
            assert(is_there(after, own, m));
        }
    }
}

/// An event means for USB devices what the event about the hidraw device that it makes known means,
/// and nothing if it makes none known.
pub proof fn lemma_event_step_decided(
    vid: u16,
    known: KnownDevices,
    required: Required,
    state: UsbState,
    event: UdevEvent,
)
    ensures
        ({
            let (after, reached, told) = event_step(vid, known, required, state, event);
            let device_event = device_step(vid, known, event).1;
            &&& after == device_step(vid, known, event).0
            &&& device_event is None ==> reached == state && told is None
            &&& device_event is Some ==> {
                &&& reached == usb_step(required, state, device_event->0).0
                &&& told == usb_step(required, state, device_event->0).1
            }
        }),
{
}

} // verus!
