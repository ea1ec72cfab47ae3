//! Discovery: which devices there are, and when they are ready for use.

pub mod history;
pub mod usb;

use vstd::prelude::*;

use crate::path::{lemma_path_order, path_less, PathView, SysPath};
use crate::path_map::{entries_map, has_key_at, lemma_entry, PathMap};
use crate::text::{hex_number, parse_hex_u16, parse_hex_u8};

verus! {

/// What happened to a device.
#[derive(Debug, Clone, Copy, PartialEq, Eq, Structural)]
pub enum DeviceAction {
    Add,
    Remove,
}

/// A USB interface as udev describes it.
pub struct UsbInterface {
    /// The attribute `bInterfaceNumber`, if it is there and is text.
    pub number: Option<String>,
}

/// A USB device as udev describes it.
pub struct UsbDevice {
    pub sysname: Vec<u8>,
    pub syspath: SysPath,
    /// The attribute `product`, if it is there and is text.
    pub product: Option<String>,
    /// The attribute `idVendor`, if it is there and is text.
    pub id_vendor: Option<String>,
    /// The attribute `idProduct`, if it is there and is text.
    pub id_product: Option<String>,
}

/// A hidraw device as udev describes it.
pub struct UdevDevice {
    pub syspath: SysPath,
    pub devnode: Option<Vec<u8>>,
    /// The USB interface that the device is a child of.
    pub usb_interface: Option<UsbInterface>,
    /// The USB device that the device is a child of.
    pub usb_device: Option<UsbDevice>,
}

/// What udev reports.
pub enum UdevEvent {
    /// A hidraw device is there.
    Add(UdevDevice),
    /// The hidraw device with this path is gone.
    Remove(SysPath),
    /// Something else happened.
    Other,
}

/// A hidraw device, and the USB device of which it is an interface.
pub struct DeviceInfo {
    pub hidraw_syspath: SysPath,
    pub usb_device_sysname: Vec<u8>,
    pub usb_device_syspath: SysPath,
    pub devnode: Vec<u8>,
    pub product_id: u16,
    pub interface_number: u8,
}

/// The mathematical value of a [`DeviceInfo`].
pub struct DeviceInfoView {
    pub hidraw_syspath: PathView,
    pub usb_device_sysname: Seq<u8>,
    pub usb_device_syspath: PathView,
    pub devnode: Seq<u8>,
    pub product_id: u16,
    pub interface_number: u8,
}

impl View for DeviceInfo {
    type V = DeviceInfoView;

    open spec fn view(&self) -> DeviceInfoView {
        DeviceInfoView {
            hidraw_syspath: self.hidraw_syspath@,
            usb_device_sysname: self.usb_device_sysname@,
            usb_device_syspath: self.usb_device_syspath@,
            devnode: self.devnode@,
            product_id: self.product_id,
            interface_number: self.interface_number,
        }
    }
}

/// The id that an attribute writes.
pub open spec fn attribute_id(attribute: Option<String>) -> Option<nat> {
    match attribute {
        Some(text) => hex_number(text@, u16::MAX as nat),
        None => None,
    }
}

/// The number of an interface: zero where the attribute writes none.
pub open spec fn interface_number(interface: UsbInterface) -> nat {
    match interface.number {
        Some(text) => hex_number(text@, u8::MAX as nat).unwrap_or(0),
        None => 0,
    }
}

/// What the daemon keeps of a device of the vendor `vid`; nothing of a device of another vendor,
/// or of one that is not on USB or does not tell its ids.
pub open spec fn device_info(device: UdevDevice, vid: u16) -> Option<DeviceInfoView> {
    match (device.devnode, device.usb_interface, device.usb_device) {
        (Some(devnode), Some(interface), Some(usb_device)) => {
            match (attribute_id(usb_device.id_vendor), attribute_id(usb_device.id_product)) {
                (Some(vendor), Some(product)) => if vendor == vid {
                    Some(
                        DeviceInfoView {
                            hidraw_syspath: device.syspath@,
                            usb_device_sysname: usb_device.sysname@,
                            usb_device_syspath: usb_device.syspath@,
                            devnode: devnode@,
                            product_id: product as u16,
                            interface_number: interface_number(interface) as u8,
                        },
                    )
                } else {
                    None
                },
                _ => None,
            }
        },
        _ => None,
    }
}

/// The vendor id and the product id of a USB device, and its product name if it has one.
pub fn parse_attrs(usb_device: &UsbDevice) -> (attrs: Option<(u16, u16, Option<&String>)>)
    ensures
        attrs is Some <==> attribute_id(usb_device.id_vendor) is Some && attribute_id(
            usb_device.id_product,
        ) is Some,
        attrs matches Some((vid, pid, product)) ==> {
            &&& attribute_id(usb_device.id_vendor) == Some(vid as nat)
            &&& attribute_id(usb_device.id_product) == Some(pid as nat)
            &&& product is Some <==> usb_device.product is Some
            &&& product matches Some(name) ==> usb_device.product == Some(*name)
        },
{
    let product = usb_device.product.as_ref();
    match (&usb_device.id_vendor, &usb_device.id_product) {
        (Some(vid), Some(pid)) => {
            match (parse_hex_u16(vid.as_str()), parse_hex_u16(pid.as_str())) {
                (Some(vid), Some(pid)) => Some((vid, pid, product)),
                _ => None,
            }
        },
        _ => None,
    }
}

impl DeviceInfo {
    /// What the daemon keeps of a device.
    pub fn from_udev(device: UdevDevice, vid_filter: u16) -> (info: Option<DeviceInfo>)
        ensures
            info is Some <==> device_info(device, vid_filter) is Some,
            info matches Some(i) ==> device_info(device, vid_filter) == Some(i@),
            info matches Some(i) ==> {
                &&& device.devnode is Some
                &&& i.devnode@ == device.devnode->0@
                &&& i.hidraw_syspath@ == device.syspath@
                &&& i.hidraw_syspath.text() == device.syspath.text()
                &&& device.usb_device is Some
                &&& i.usb_device_sysname@ == device.usb_device->0.sysname@
                &&& i.usb_device_syspath@ == device.usb_device->0.syspath@
                &&& i.usb_device_syspath.text() == device.usb_device->0.syspath.text()
            },
    {
        let devnode = match device.devnode {
            Some(devnode) => devnode,
            None => {
                return None;
            },
        };
        let usb_interface = match device.usb_interface {
            Some(usb_interface) => usb_interface,
            None => {
                return None;
            },
        };
        let interface_number: u8 = match &usb_interface.number {
            Some(text) => match parse_hex_u8(text.as_str()) {
                Some(number) => number,
                None => 0,
            },
            None => 0,
        };
        let usb_device = match device.usb_device {
            Some(usb_device) => usb_device,
            None => {
                return None;
            },
        };
        let (vid, pid) = match parse_attrs(&usb_device) {
            Some((vid, pid, _)) => (vid, pid),
            None => {
                return None;
            },
        };
        if vid != vid_filter {
            return None;
        }
        Some(
            DeviceInfo {
                hidraw_syspath: device.syspath,
                usb_device_sysname: usb_device.sysname,
                usb_device_syspath: usb_device.syspath,
                devnode,
                product_id: pid,
                interface_number,
            },
        )
    }

    /// A copy of the description.
    pub fn duplicate(&self) -> (info: DeviceInfo)
        ensures
            info@ == self@,
            info.devnode@ == self.devnode@,
            info.usb_device_sysname@ == self.usb_device_sysname@,
            info.hidraw_syspath@ == self.hidraw_syspath@,
            info.usb_device_syspath@ == self.usb_device_syspath@,
            info.product_id == self.product_id,
            info.interface_number == self.interface_number,
    {
        let usb_device_sysname = self.usb_device_sysname.clone();
        let devnode = self.devnode.clone();
        assert(usb_device_sysname@ =~= self.usb_device_sysname@);
        assert(devnode@ =~= self.devnode@);
        DeviceInfo {
            hidraw_syspath: self.hidraw_syspath.duplicate(),
            usb_device_sysname,
            usb_device_syspath: self.usb_device_syspath.duplicate(),
            devnode,
            product_id: self.product_id,
            interface_number: self.interface_number,
        }
    }
}

/// A hidraw device came or went.
pub struct DeviceEvent {
    pub action: DeviceAction,
    pub device: DeviceInfo,
}

/// The mathematical value of a [`DeviceEvent`].
pub struct DeviceEventView {
    pub action: DeviceAction,
    pub device: DeviceInfoView,
}

impl View for DeviceEvent {
    type V = DeviceEventView;

    open spec fn view(&self) -> DeviceEventView {
        DeviceEventView { action: self.action, device: self.device@ }
    }
}

/// The hidraw devices that are there, by their paths.
pub type KnownDevices = Map<PathView, DeviceInfoView>;

/// What an event does to the known devices of the vendor `vid`, and what is made known of it.
pub open spec fn device_step(vid: u16, known: KnownDevices, event: UdevEvent) -> (
    KnownDevices,
    Option<DeviceEventView>,
) {
    match event {
        UdevEvent::Add(device) => match device_info(device, vid) {
            Some(info) => (
                known.insert(info.hidraw_syspath, info),
                Some(DeviceEventView { action: DeviceAction::Add, device: info }),
            ),
            None => (known, None),
        },
        UdevEvent::Remove(path) => if known.contains_key(path@) {
            (
                known.remove(path@),
                Some(DeviceEventView { action: DeviceAction::Remove, device: known[path@] }),
            )
        } else {
            (known, None)
        },
        UdevEvent::Other => (known, None),
    }
}

/// The known devices after those in `found` have been found, in this order.
pub open spec fn devices_found(
    vid: u16,
    known: KnownDevices,
    found: Seq<UdevDevice>,
) -> KnownDevices
    decreases found.len(),
{
    if found.len() == 0 {
        known
    } else {
        let before = devices_found(vid, known, found.drop_last());
        match device_info(found.last(), vid) {
            Some(info) => before.insert(info.hidraw_syspath, info),
            None => before,
        }
    }
}

/// Whether `events` adds each known device once, and nothing else.
pub open spec fn adds_each(known: KnownDevices, events: Seq<DeviceEventView>) -> bool {
    &&& forall|i: int|
        0 <= i < events.len() ==> {
            let event = #[trigger] events[i];
            &&& event.action == DeviceAction::Add
            &&& known.contains_key(event.device.hidraw_syspath)
            &&& known[event.device.hidraw_syspath] == event.device
        }
    &&& forall|path: PathView| #[trigger]
        known.contains_key(path) ==> exists|i: int|
            0 <= i < events.len() && (#[trigger] events[i]).device.hidraw_syspath == path
    &&& forall|i: int, j: int|
        0 <= i < j < events.len() ==> (#[trigger] events[i]).device.hidraw_syspath != (
        #[trigger] events[j]).device.hidraw_syspath
}

/// The values of `events`.
pub open spec fn event_views(events: Seq<DeviceEvent>) -> Seq<DeviceEventView> {
    Seq::new(events.len(), |i: int| events[i]@)
}

/// Watches the hidraw devices of one vendor.
pub struct DeviceMonitor {
    vendor_id: u16,
    devices: PathMap<DeviceInfo>,
}

impl DeviceMonitor {
    /// The vendor.
    pub closed spec fn vendor_id(self) -> u16 {
        self.vendor_id
    }

    /// The devices that are there.
    pub closed spec fn known(self) -> KnownDevices {
        self.devices@.map_values(|info: DeviceInfo| info@)
    }

    /// The invariant: each device is kept under its own path.
    pub closed spec fn wf(self) -> bool {
        &&& self.devices.wf()
        &&& forall|path: PathView| #[trigger]
            self.devices@.contains_key(path) ==> self.devices@[path]@.hidraw_syspath == path
    }

    /// A monitor that knows of no device.
    pub fn new(vendor_id: u16) -> (monitor: DeviceMonitor)
        ensures
            monitor.wf(),
            monitor.vendor_id() == vendor_id,
            monitor.known() == KnownDevices::empty(),
    {
        let monitor = DeviceMonitor { vendor_id, devices: PathMap::new() };
        assert(monitor.known() =~= KnownDevices::empty());
        monitor
    }

    fn add(&mut self, info: DeviceInfo)
        requires
            old(self).wf(),
        ensures
            final(self).wf(),
            final(self).vendor_id() == old(self).vendor_id(),
            final(self).known() == old(self).known().insert(info@.hidraw_syspath, info@),
    {
        let ghost before = self.known();
        let path = info.hidraw_syspath.duplicate();
        self.devices.insert(path, info);
        assert(self.known() =~= before.insert(info@.hidraw_syspath, info@));
    }

    /// Takes in the devices that are there at the start, and makes each known device known. In
    /// which order is not specified.
    pub fn scan(&mut self, found: Vec<UdevDevice>) -> (events: Vec<DeviceEvent>)
        requires
            old(self).wf(),
        ensures
            final(self).wf(),
            final(self).vendor_id() == old(self).vendor_id(),
            final(self).known() == devices_found(
                old(self).vendor_id(),
                old(self).known(),
                found@,
            ),
            adds_each(final(self).known(), event_views(events@)),
    {
        let ghost all = found@;
        assert(all.take(0) =~= Seq::empty());
        for device in devices: found
            invariant
                self.wf(),
                devices.seq() == all,
                self.vendor_id() == old(self).vendor_id(),
                self.known() == devices_found(
                    old(self).vendor_id(),
                    old(self).known(),
                    all.take(devices.index() as int),
                ),
        {
            proof {
                let next = all.take(devices.index() + 1);
                assert(next.drop_last() =~= all.take(devices.index() as int));
                assert(next.last() == device);
            }
            if let Some(info) = DeviceInfo::from_udev(device, self.vendor_id) {
                self.add(info);
            }
        }
        assert(all.take(all.len() as int) =~= all);
        self.list()
    }

    /// An addition of each known device.
    fn list(&self) -> (events: Vec<DeviceEvent>)
        requires
            self.wf(),
        ensures
            adds_each(self.known(), event_views(events@)),
    {
        let mut events: Vec<DeviceEvent> = Vec::new();
        let mut i: usize = 0;
        while i < self.devices.len()
            invariant
                i <= self.devices.entries().len(),
                events.len() == i,
                forall|j: int|
                    0 <= j < i ==> {
                        &&& (#[trigger] events[j]).action == DeviceAction::Add
                        &&& events[j].device@ == self.devices.entries()[j].1@
                    },
            decreases self.devices.entries().len() - i,
        {
            let device = self.devices.value_at(i).duplicate();
            events.push(DeviceEvent { action: DeviceAction::Add, device });
            i += 1;
        }
        proof {
            let entries = self.devices.entries();
            let known = self.known();
            let views = event_views(events@);
            assert forall|j: int| 0 <= j < views.len() implies {
                &&& (#[trigger] views[j]).action == DeviceAction::Add
                &&& views[j].device.hidraw_syspath == entries[j].0
                &&& known.contains_key(entries[j].0)
                &&& known[entries[j].0] == views[j].device
            } by {
                assert(views[j] == events[j]@);
                lemma_entry(entries, j);
            }
            assert forall|path: PathView| #[trigger] known.contains_key(path) implies exists|j: int|
                0 <= j < views.len() && (#[trigger] views[j]).device.hidraw_syspath == path by {
                assert(entries_map(entries).contains_key(path));
                let j = choose|j: int| has_key_at(entries, path, j);
                assert(views[j].device.hidraw_syspath == path);
            }
            assert forall|j: int, k: int| 0 <= j < k < views.len() implies (
            #[trigger] views[j]).device.hidraw_syspath != (
            #[trigger] views[k]).device.hidraw_syspath by {
                lemma_path_order(entries[j].0, entries[j].0, entries[j].0);
                assert(path_less(entries[j].0, entries[k].0));
            }
        }
        events
    }

    /// What an event means.
    pub fn handle_event(&mut self, event: UdevEvent) -> (made_known: Option<DeviceEvent>)
        requires
            old(self).wf(),
        ensures
            final(self).wf(),
            final(self).vendor_id() == old(self).vendor_id(),
            ({
                let (known, view) = device_step(old(self).vendor_id(), old(self).known(), event);
                &&& final(self).known() == known
                &&& made_known is Some <==> view is Some
                &&& made_known matches Some(e) ==> view == Some(e@)
            }),
    {
        match event {
            UdevEvent::Add(device) => match DeviceInfo::from_udev(device, self.vendor_id) {
                Some(info) => {
                    self.add(info.duplicate());
                    Some(DeviceEvent { action: DeviceAction::Add, device: info })
                },
                None => None,
            },
            UdevEvent::Remove(path) => {
                let ghost before = self.known();
                match self.devices.remove(&path) {
                    Some(info) => {
                        assert(self.known() =~= before.remove(path@));
                        Some(DeviceEvent { action: DeviceAction::Remove, device: info })
                    },
                    None => {
                        assert(self.known() =~= before);
                        None
                    },
                }
            },
            UdevEvent::Other => None,
        }
    }
}

/// A device that goes is made known as it was when it came, and is forgotten.
pub proof fn lemma_removed_as_added(
    vid: u16,
    known: KnownDevices,
    device: UdevDevice,
    path: SysPath,
)
    requires
        device_info(device, vid) is Some,
        path@ == device.syspath@,
    ensures
        ({
            let info = device_info(device, vid)->0;
            let (added, _) = device_step(vid, known, UdevEvent::Add(device));
            let (removed, event) = device_step(vid, added, UdevEvent::Remove(path));
            &&& event == Some(DeviceEventView { action: DeviceAction::Remove, device: info })
            &&& removed == known.remove(path@)
        }),
{
    let info = device_info(device, vid)->0;
    let (added, _) = device_step(vid, known, UdevEvent::Add(device));
    let (removed, _) = device_step(vid, added, UdevEvent::Remove(path));
    assert(removed =~= known.remove(path@));
}

/// An event about one device says nothing of the others.
pub proof fn lemma_other_devices_stay(
    vid: u16,
    known: KnownDevices,
    event: UdevEvent,
    other: PathView,
)
    requires
        event matches UdevEvent::Add(device) ==> device.syspath@ != other,
        event matches UdevEvent::Remove(path) ==> path@ != other,
    ensures
        ({
            let after = device_step(vid, known, event).0;
            &&& after.contains_key(other) == known.contains_key(other)
            &&& known.contains_key(other) ==> after[other] == known[other]
        }),
{
}

/// The known devices after `events`.
pub open spec fn device_run(vid: u16, known: KnownDevices, events: Seq<UdevEvent>) -> KnownDevices
    decreases events.len(),
{
    if events.len() == 0 {
        known
    } else {
        device_step(vid, device_run(vid, known, events.drop_last()), events.last()).0
    }
}

/// What is made known of the event at position `i` of `events`.
pub open spec fn device_output(
    vid: u16,
    known: KnownDevices,
    events: Seq<UdevEvent>,
    i: int,
) -> Option<DeviceEventView> {
    device_step(vid, device_run(vid, known, events.take(i)), events[i]).1
}

/// Whether `event` adds the device at `path`, and something is kept of it.
pub open spec fn adds_device(vid: u16, event: UdevEvent, path: PathView) -> bool {
    event matches UdevEvent::Add(device) && device.syspath@ == path && device_info(device, vid)
        is Some
}

/// Whether `event` takes the device at `path` away.
pub open spec fn removes_device(event: UdevEvent, path: PathView) -> bool {
    event matches UdevEvent::Remove(removed) && removed@ == path
}

/// Whether none of the events from position `from` on adds the device at `path` or takes it away.
pub open spec fn untouched_since(
    vid: u16,
    events: Seq<UdevEvent>,
    path: PathView,
    from: int,
) -> bool {
    forall|m: int|
        from <= m < events.len() ==> !adds_device(vid, #[trigger] events[m], path)
            && !removes_device(events[m], path)
}

/// Whether the event at position `k` is the addition of the device at `path` that still holds
/// after `events`.
pub open spec fn is_latest_addition(
    vid: u16,
    events: Seq<UdevEvent>,
    path: PathView,
    k: int,
) -> bool {
    &&& 0 <= k < events.len()
    &&& adds_device(vid, events[k], path)
    &&& untouched_since(vid, events, path, k + 1)
}

/// A device is known if its latest addition still holds, and is then known as that addition
/// described it; a device of which there was no event is known as it was at the start.
pub proof fn lemma_known_as_last_added(
    vid: u16,
    known: KnownDevices,
    events: Seq<UdevEvent>,
    path: PathView,
)
    ensures
        ({
            let after = device_run(vid, known, events);
            &&& forall|k: int| #[trigger]
                is_latest_addition(vid, events, path, k) ==> after.contains_key(path)
                    && device_info(events[k]->Add_0, vid) == Some(after[path])
            &&& untouched_since(vid, events, path, 0) ==> {
                &&& after.contains_key(path) == known.contains_key(path)
                &&& known.contains_key(path) ==> after[path] == known[path]
            }
            &&& after.contains_key(path) ==> untouched_since(vid, events, path, 0) || exists|k: int|
                #[trigger] is_latest_addition(vid, events, path, k)
        }),
    decreases events.len(),
{
    if events.len() > 0 {
        let less = events.drop_last();
        let last = events.len() - 1;
        let before = device_run(vid, known, less);
        let after = device_run(vid, known, events);
        lemma_known_as_last_added(vid, known, less, path);
        if adds_device(vid, events[last], path) {
            assert(is_latest_addition(vid, events, path, last));
            assert forall|k: int| #[trigger] is_latest_addition(vid, events, path, k) implies k
                == last by {
                if k < last {
                    assert(!adds_device(vid, events[last], path));
                }
            }
        } else if removes_device(events[last], path) {
            assert(!after.contains_key(path));
            assert forall|k: int| !#[trigger] is_latest_addition(vid, events, path, k) by {
                if is_latest_addition(vid, events, path, k) && k < last {
                    assert(!removes_device(events[last], path));
                }
            }
        } else {
            assert(after.contains_key(path) == before.contains_key(path));
            assert(before.contains_key(path) ==> after[path] == before[path]);
            assert forall|k: int| #[trigger] is_latest_addition(vid, events, path, k) implies
                is_latest_addition(vid, less, path, k) by {
                assert(k < last);
                assert(less[k] == events[k]);
                assert forall|m: int| k + 1 <= m < less.len() implies !adds_device(
                    vid,
                    #[trigger] less[m],
                    path,
                ) && !removes_device(less[m], path) by {
                    assert(less[m] == events[m]);
                }
            }
            assert forall|k: int| #[trigger] is_latest_addition(vid, less, path, k) implies
                is_latest_addition(vid, events, path, k) by {
                assert(less[k] == events[k]);
                assert forall|m: int| k + 1 <= m < events.len() implies !adds_device(
                    vid,
                    #[trigger] events[m],
                    path,
                ) && !removes_device(events[m], path) by {
                    if m < last {
                        assert(less[m] == events[m]);
                    }
                }
            }
            if untouched_since(vid, events, path, 0) {
                assert forall|m: int| 0 <= m < less.len() implies !adds_device(
                    vid,
                    #[trigger] less[m],
                    path,
                ) && !removes_device(less[m], path) by {
                    assert(less[m] == events[m]);
                }
            }
            if untouched_since(vid, less, path, 0) {
                assert forall|m: int| 0 <= m < events.len() implies !adds_device(
                    vid,
                    #[trigger] events[m],
                    path,
                ) && !removes_device(events[m], path) by {
                    if m < last {
                        assert(less[m] == events[m]);
                    }
                }
            } else if after.contains_key(path) {
                let k = choose|k: int| #[trigger] is_latest_addition(vid, less, path, k);
                assert(is_latest_addition(vid, events, path, k));
            }
        }
    }
}

/// Where no device is known at the start, a removal is made known exactly of a device that was
/// added and has not gone since, and it carries what the latest addition of the device told.
pub proof fn lemma_removal_tells_latest_addition(
    vid: u16,
    events: Seq<UdevEvent>,
    path: PathView,
    i: int,
)
    requires
        0 <= i < events.len(),
        removes_device(events[i], path),
    ensures
        device_output(vid, KnownDevices::empty(), events, i) is Some <==> exists|k: int| #[trigger]
            is_latest_addition(vid, events.take(i), path, k),
        forall|k: int| #[trigger]
            is_latest_addition(vid, events.take(i), path, k) ==> device_output(
                vid,
                KnownDevices::empty(),
                events,
                i,
            ) == Some(
                DeviceEventView {
                    action: DeviceAction::Remove,
                    device: device_info(events[k]->Add_0, vid)->0,
                },
            ),
{
    lemma_known_as_last_added(vid, KnownDevices::empty(), events.take(i), path);
    assert forall|k: int| #[trigger] is_latest_addition(vid, events.take(i), path, k) implies
        events.take(i)[k] == events[k] by {}
}

/// The devices that are there at the start are known as if each had been added by an event.
pub proof fn lemma_found_as_added(vid: u16, known: KnownDevices, found: Seq<UdevDevice>)
    ensures
        devices_found(vid, known, found) == device_run(
            vid,
            known,
            found.map_values(|device: UdevDevice| UdevEvent::Add(device)),
        ),
    decreases found.len(),
{
    let events = found.map_values(|device: UdevDevice| UdevEvent::Add(device));
    if found.len() > 0 {
        lemma_found_as_added(vid, known, found.drop_last());
        assert(events.drop_last() =~= found.drop_last().map_values(
            |device: UdevDevice| UdevEvent::Add(device),
        ));
    }
}

/// The value of a description holds every byte of it.
pub proof fn lemma_device_info_value(info: DeviceInfo, event: DeviceEvent)
    ensures
        info@.hidraw_syspath == info.hidraw_syspath@,
        info@.usb_device_sysname == info.usb_device_sysname@,
        info@.usb_device_syspath == info.usb_device_syspath@,
        info@.devnode == info.devnode@,
        info@.product_id == info.product_id,
        info@.interface_number == info.interface_number,
        event@.action == event.action,
        event@.device == event.device@,
{
}

/// The values of events are those of the events, one by one.
pub proof fn lemma_event_values(events: Seq<DeviceEvent>, i: int)
    ensures
        event_views(events).len() == events.len(),
        0 <= i < events.len() ==> event_views(events)[i].action == events[i].action,
        0 <= i < events.len() ==> event_views(events)[i].device == events[i].device@,
{
}

/// Something is kept exactly of the devices of the vendor that have a node, are on USB and tell
/// both of their ids; and what is kept has the device's own node, paths and name, byte for byte,
/// the product id that the device tells, and the number of its interface, or zero if it tells none.
pub proof fn lemma_device_kept(device: UdevDevice, vid: u16)
    ensures
        device_info(device, vid) is Some <==> {
            &&& device.devnode is Some
            &&& device.usb_interface is Some
            &&& device.usb_device is Some
            &&& device.usb_device->0.id_vendor is Some
            &&& hex_number(device.usb_device->0.id_vendor->0@, 0xffff) == Some(vid as nat)
            &&& device.usb_device->0.id_product is Some
            &&& hex_number(device.usb_device->0.id_product->0@, 0xffff) is Some
        },
        device_info(device, vid) matches Some(info) ==> {
            &&& info.devnode == device.devnode->0@
            &&& info.hidraw_syspath == device.syspath@
            &&& info.usb_device_sysname == device.usb_device->0.sysname@
            &&& info.usb_device_syspath == device.usb_device->0.syspath@
            &&& hex_number(device.usb_device->0.id_product->0@, 0xffff) == Some(
                info.product_id as nat,
            )
            &&& tells_interface(device.usb_interface->0, info.interface_number)
        },
{
}

/// Whether `number` is the number of the interface: the one that its attribute writes, or zero
/// where it writes none that fits into a byte.
pub open spec fn tells_interface(interface: UsbInterface, number: u8) -> bool {
    if interface.number is Some && hex_number(interface.number->0@, 0xff) is Some {
        hex_number(interface.number->0@, 0xff) == Some(number as nat)
    } else {
        number == 0
    }
}

/// An attribute that is there tells the number that it writes in base sixteen, up to sixteen bits.
pub proof fn lemma_attribute_id(text: String)
    ensures
        attribute_id(Some(text)) == hex_number(text@, 0xffff),
        attribute_id(None) == None::<nat>,
{
}

/// A device of which something is kept is known once it has been added, as it was described, and is
/// made known; and one that goes is made known as it was known, and is known no more. All other
/// devices stay, and so do all where nothing is made known.
pub proof fn lemma_device_step_decided(
    vid: u16,
    known: KnownDevices,
    event: UdevEvent,
    path: PathView,
)
    ensures
        ({
            let (after, told) = device_step(vid, known, event);
            match event {
                UdevEvent::Add(device) => {
                    &&& told is Some <==> device_info(device, vid) is Some
                    &&& told is Some ==> {
                        &&& told->0.action == DeviceAction::Add
                        &&& told->0.device == device_info(device, vid)->0
                        &&& after.contains_key(device.syspath@)
                        &&& after[device.syspath@] == told->0.device
                    }
                    &&& told is None || path != device.syspath@ ==> {
                        &&& after.contains_key(path) == known.contains_key(path)
                        &&& known.contains_key(path) ==> after[path] == known[path]
                    }
                },
                UdevEvent::Remove(gone) => {
                    &&& told is Some <==> known.contains_key(gone@)
                    &&& told is Some ==> {
                        &&& told->0.action == DeviceAction::Remove
                        &&& told->0.device == known[gone@]
                    }
                    &&& !after.contains_key(gone@)
                    &&& path != gone@ ==> {
                        &&& after.contains_key(path) == known.contains_key(path)
                        &&& known.contains_key(path) ==> after[path] == known[path]
                    }
                },
                UdevEvent::Other => told is None && after == known,
            }
        }),
{
}

/// Whether the device at position `i` of `found` is at `path` and something is kept of it.
pub open spec fn is_found_at(vid: u16, found: Seq<UdevDevice>, path: PathView, i: int) -> bool {
    &&& 0 <= i < found.len()
    &&& found[i].syspath@ == path
    &&& device_info(found[i], vid) is Some
}

/// After a scan exactly those devices are known that were, or that were found and are kept; each as
/// it was found last, or else as it was known.
pub proof fn lemma_found_are_known(
    vid: u16,
    known: KnownDevices,
    found: Seq<UdevDevice>,
    path: PathView,
)
    ensures
        ({
            let after = devices_found(vid, known, found);
            &&& after.contains_key(path) <==> known.contains_key(path) || exists|i: int| #[trigger]
                is_found_at(vid, found, path, i)
            &&& forall|i: int| #[trigger]
                is_found_at(vid, found, path, i) && (forall|j: int|
                    i < j ==> !#[trigger] is_found_at(vid, found, path, j)) ==> after[path]
                    == device_info(found[i], vid)->0
            &&& known.contains_key(path) && !(exists|i: int| #[trigger]
                is_found_at(vid, found, path, i)) ==> after[path] == known[path]
        }),
    decreases found.len(),
{
    if found.len() > 0 {
        let less = found.drop_last();
        let last = found.len() - 1;
        lemma_found_are_known(vid, known, less, path);
        assert forall|i: int| 0 <= i < last implies #[trigger] is_found_at(vid, less, path, i)
            == is_found_at(vid, found, path, i) by {
            assert(less[i] == found[i]);
        }
        assert(found[last] == found.last());
        if is_found_at(vid, found, path, last) {
            assert forall|i: int| #[trigger]
                is_found_at(vid, found, path, i) && (forall|j: int|
                    i < j ==> !#[trigger] is_found_at(vid, found, path, j)) implies i == last by {
                if i < last {
                    assert(!is_found_at(vid, found, path, last));
                }
            }
        } else {
            assert forall|i: int| #[trigger] is_found_at(vid, found, path, i) implies is_found_at(
                vid,
                less,
                path,
                i,
            ) by {}
            assert forall|i: int| #[trigger] is_found_at(vid, less, path, i) implies is_found_at(
                vid,
                found,
                path,
                i,
            ) by {}
            assert forall|i: int| #[trigger]
                is_found_at(vid, found, path, i) && (forall|j: int|
                    i < j ==> !#[trigger] is_found_at(vid, found, path, j)) implies
                devices_found(vid, known, found)[path] == device_info(found[i], vid)->0 by {
                assert(is_found_at(vid, less, path, i));
                assert forall|j: int| i < j implies !#[trigger] is_found_at(
                    vid,
                    less,
                    path,
                    j,
                ) by {
                    if is_found_at(vid, less, path, j) {
                        assert(is_found_at(vid, found, path, j));
                    }
                }
                assert(less[i] == found[i]);
            }
        }
    }
}

/// A listing of additions has as many as there are known devices, and for each known device the
/// addition of it, as it is known.
pub proof fn lemma_each_is_added(known: KnownDevices, events: Seq<DeviceEventView>, path: PathView)
    requires
        adds_each(known, events),
    ensures
        known.dom().finite(),
        events.len() == known.dom().len(),
        known.contains_key(path) ==> exists|i: int|
            0 <= i < events.len() && #[trigger] events[i] == (DeviceEventView {
                action: DeviceAction::Add,
                device: known[path],
            }),
        forall|i: int|
            0 <= i < events.len() ==> {
                &&& (#[trigger] events[i]).action == DeviceAction::Add
                &&& known.contains_key(events[i].device.hidraw_syspath)
                &&& known[events[i].device.hidraw_syspath] == events[i].device
            },
{
    let paths = events.map_values(|event: DeviceEventView| event.device.hidraw_syspath);
    assert forall|i: int, j: int| 0 <= i < paths.len() && 0 <= j < paths.len() && i != j implies
        paths[i] != paths[j] by {
        if i < j {
            assert(events[i].device.hidraw_syspath != events[j].device.hidraw_syspath);
        } else {
            assert(events[j].device.hidraw_syspath != events[i].device.hidraw_syspath);
        }
    }
    assert(paths.no_duplicates());
    paths.unique_seq_to_set();
    assert forall|p: PathView| known.dom().contains(p) == #[trigger] paths.to_set().contains(p) by {
        if known.contains_key(p) {
            let i = choose|i: int|
                0 <= i < events.len() && (#[trigger] events[i]).device.hidraw_syspath == p;
            assert(paths[i] == p);
        }
        if paths.contains(p) {
            let i = choose|i: int| 0 <= i < paths.len() && paths[i] == p;
            assert(events[i].device.hidraw_syspath == p);
        }
    }
    assert(known.dom() =~= paths.to_set());
    if known.contains_key(path) {
        let i = choose|i: int|
            0 <= i < events.len() && (#[trigger] events[i]).device.hidraw_syspath == path;
        assert(events[i] == (DeviceEventView { action: DeviceAction::Add, device: known[path] }));
    }
}

} // verus!
