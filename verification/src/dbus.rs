//! What the daemon shows on the bus.

use vstd::prelude::*;

pub use crate::object_path::create_object_path;

use crate::driver::chroma;
use crate::driver::chroma::LightingRegion;
use crate::driver::devices::{is_task, RazerDevice};
use crate::driver::protocol::{Report, RequestTask};
use crate::manager::{
    is_listing, with_device, Device, DeviceManager, DeviceObject, InterfaceName, Registry,
};
use crate::object_path::ObjectPath;
use crate::path::PathView;
use crate::path_map::{entries_map, has_key_at, lemma_entry};

verus! {

/// The name of an interface.
pub open spec fn interface_text(interface: InterfaceName) -> Seq<char> {
    match interface {
        InterfaceName::DeviceManager => "dev.hasali.Fang.DeviceManager"@,
        InterfaceName::Device => "dev.hasali.Fang.Device"@,
        InterfaceName::Mouse => "dev.hasali.Fang.Mouse"@,
        InterfaceName::LightingRegion => "dev.hasali.Fang.LightingRegion"@,
    }
}

/// The name of an interface.
pub fn interface_name(interface: InterfaceName) -> (name: &'static str)
    ensures
        name@ == interface_text(interface),
{
    match interface {
        InterfaceName::DeviceManager => "dev.hasali.Fang.DeviceManager",
        InterfaceName::Device => "dev.hasali.Fang.Device",
        InterfaceName::Mouse => "dev.hasali.Fang.Mouse",
        InterfaceName::LightingRegion => "dev.hasali.Fang.LightingRegion",
    }
}

/// Whether an object stands for a device, rather than for a part of one.
pub open spec fn is_device_object(object: DeviceObject) -> bool {
    object.interfaces@.contains(InterfaceName::Device) || object.interfaces@.contains(
        InterfaceName::Mouse,
    )
}

/// The paths of those of the objects that stand for devices.
pub open spec fn object_paths(objects: Seq<DeviceObject>) -> Seq<Seq<char>>
    decreases objects.len(),
{
    if objects.len() == 0 {
        Seq::empty()
    } else {
        let before = object_paths(objects.drop_last());
        if is_device_object(objects.last()) {
            before.push(objects.last().path@)
        } else {
            before
        }
    }
}

/// The paths of the objects that stand for the devices.
pub open spec fn device_paths<T>(devices: Seq<Device<T>>) -> Seq<Seq<char>>
    decreases devices.len(),
{
    if devices.len() == 0 {
        Seq::empty()
    } else {
        device_paths(devices.drop_last()) + object_paths(devices.last().objects@)
    }
}

/// The paths of the objects that stand for devices, over all USB devices.
pub open spec fn all_device_paths<T>(entries: Seq<(PathView, Seq<Device<T>>)>) -> Seq<Seq<char>>
    decreases entries.len(),
{
    if entries.len() == 0 {
        Seq::empty()
    } else {
        all_device_paths(entries.drop_last()) + device_paths(entries.last().1)
    }
}

/// The texts of the paths.
pub open spec fn path_texts(paths: Seq<ObjectPath>) -> Seq<Seq<char>> {
    Seq::new(paths.len(), |i: int| paths[i]@)
}

/// Whether the object has the interface.
fn has_interface(object: &DeviceObject, interface: InterfaceName) -> (has: bool)
    ensures
        has == object.interfaces@.contains(interface),
{
    let mut i: usize = 0;
    while i < object.interfaces.len()
        invariant
            i <= object.interfaces.len(),
            forall|j: int| 0 <= j < i ==> object.interfaces[j] != interface,
        decreases object.interfaces.len() - i,
    {
        if object.interfaces[i] == interface {
            assert(object.interfaces@[i as int] == interface);
            return true;
        }
        i += 1;
    }
    false
}

fn push_object_paths(paths: &mut Vec<ObjectPath>, objects: &Vec<DeviceObject>)
    ensures
        path_texts(final(paths)@) == path_texts(old(paths)@) + object_paths(objects@),
{
    let ghost start = path_texts(paths@);
    let mut i: usize = 0;
    assert(objects@.take(0) =~= Seq::empty());
    assert(path_texts(paths@) =~= start + object_paths(objects@.take(0)));
    while i < objects.len()
        invariant
            i <= objects.len(),
            path_texts(paths@) == start + object_paths(objects@.take(i as int)),
        decreases objects.len() - i,
    {
        let ghost before = path_texts(paths@);
        proof {
            let next = objects@.take(i + 1);
            assert(next.drop_last() =~= objects@.take(i as int));
            assert(next.last() == objects@[i as int]);
        }
        let object = &objects[i];
        if has_interface(object, InterfaceName::Device) || has_interface(
            object,
            InterfaceName::Mouse,
        ) {
            paths.push(object.path.duplicate());
            assert(path_texts(paths@) =~= before.push(object.path@));
        }
        i += 1;
        assert(path_texts(paths@) =~= start + object_paths(objects@.take(i as int)));
    }
    assert(objects@.take(objects@.len() as int) =~= objects@);
}

fn push_device_paths<T>(paths: &mut Vec<ObjectPath>, devices: &Vec<Device<T>>)
    ensures
        path_texts(final(paths)@) == path_texts(old(paths)@) + device_paths(devices@),
{
    let ghost start = path_texts(paths@);
    let mut i: usize = 0;
    assert(devices@.take(0) =~= Seq::empty());
    assert(path_texts(paths@) =~= start + device_paths(devices@.take(0)));
    while i < devices.len()
        invariant
            i <= devices.len(),
            path_texts(paths@) == start + device_paths(devices@.take(i as int)),
        decreases devices.len() - i,
    {
        proof {
            let next = devices@.take(i + 1);
            assert(next.drop_last() =~= devices@.take(i as int));
            assert(next.last() == devices@[i as int]);
        }
        push_object_paths(paths, &devices[i].objects);
        i += 1;
        assert(path_texts(paths@) =~= start + device_paths(devices@.take(i as int)));
    }
    assert(devices@.take(devices@.len() as int) =~= devices@);
}

/// The object of the daemon itself.
pub struct DeviceManagerService<'a, T> {
    pub device_manager: &'a DeviceManager<T>,
}

impl<'a, T> DeviceManagerService<'a, T> {
    /// The paths of the devices, in the order of the paths of their USB devices.
    pub fn devices(&self) -> (paths: Vec<ObjectPath>)
        requires
            self.device_manager.wf(),
        ensures
            exists|listing: Seq<(PathView, Seq<Device<T>>)>|
                {
                    &&& #[trigger] is_listing(self.device_manager.registry(), listing)
                    &&& path_texts(paths@) == all_device_paths(listing)
                },
    {
        let mut paths: Vec<ObjectPath> = Vec::new();
        let manager = self.device_manager;
        let mut i: usize = 0;
        assert(manager.entries().take(0) =~= Seq::empty());
        assert(path_texts(paths@) =~= all_device_paths(manager.entries().take(0)));
        while i < manager.len()
            invariant
                i <= manager.entries().len(),
                path_texts(paths@) == all_device_paths(manager.entries().take(i as int)),
            decreases manager.entries().len() - i,
        {
            proof {
                let next = manager.entries().take(i + 1);
                assert(next.drop_last() =~= manager.entries().take(i as int));
                assert(next.last() == manager.entries()[i as int]);
            }
            push_device_paths(&mut paths, manager.devices_at(i));
            i += 1;
        }
        proof {
            assert(manager.entries().take(manager.entries().len() as int) =~= manager.entries());
            manager.lemma_entries();
        }
        paths
    }
}

/// Whether the registry has a device with the object `object`.
pub open spec fn is_registered<T>(
    listing: Seq<(PathView, Seq<Device<T>>)>,
    object: DeviceObject,
) -> bool {
    exists|i: int, j: int, k: int| #[trigger] is_object_at(listing, object, i, j, k)
}

/// Whether `object` is the object `k` of the device `j` of the USB device `i`.
pub open spec fn is_object_at<T>(
    listing: Seq<(PathView, Seq<Device<T>>)>,
    object: DeviceObject,
    i: int,
    j: int,
    k: int,
) -> bool {
    &&& 0 <= i < listing.len()
    &&& 0 <= j < listing[i].1.len()
    &&& 0 <= k < listing[i].1[j].objects@.len()
    &&& object == listing[i].1[j].objects@[k]
}

proof fn lemma_object_listed(objects: Seq<DeviceObject>, k: int)
    requires
        0 <= k < objects.len(),
        is_device_object(objects[k]),
    ensures
        object_paths(objects).contains(objects[k].path@),
    decreases objects.len(),
{
    let paths = object_paths(objects);
    if k == objects.len() - 1 {
        assert(paths[paths.len() - 1] == objects[k].path@);
    } else {
        lemma_object_listed(objects.drop_last(), k);
        let before = object_paths(objects.drop_last());
        let i = choose|i: int| 0 <= i < before.len() && before[i] == objects[k].path@;
        assert(paths[i] == objects[k].path@);
    }
}

proof fn lemma_device_listed<T>(devices: Seq<Device<T>>, j: int, path: Seq<char>)
    requires
        0 <= j < devices.len(),
        object_paths(devices[j].objects@).contains(path),
    ensures
        device_paths(devices).contains(path),
    decreases devices.len(),
{
    let before = device_paths(devices.drop_last());
    let own = object_paths(devices.last().objects@);
    let paths = device_paths(devices);
    if j == devices.len() - 1 {
        let i = choose|i: int| 0 <= i < own.len() && own[i] == path;
        assert(paths[before.len() + i] == path);
    } else {
        lemma_device_listed(devices.drop_last(), j, path);
        let i = choose|i: int| 0 <= i < before.len() && before[i] == path;
        assert(paths[i] == path);
    }
}

/// The object of every registered device is listed.
pub proof fn lemma_registered_is_listed<T>(
    listing: Seq<(PathView, Seq<Device<T>>)>,
    object: DeviceObject,
)
    requires
        is_registered(listing, object),
        is_device_object(object),
    ensures
        all_device_paths(listing).contains(object.path@),
    decreases listing.len(),
{
    let (i, j, k) = choose|i: int, j: int, k: int| #[trigger]
        is_object_at(listing, object, i, j, k);
    lemma_object_listed(listing[i].1[j].objects@, k);
    lemma_device_listed(listing[i].1, j, object.path@);
    let before = all_device_paths(listing.drop_last());
    let own = device_paths(listing.last().1);
    let paths = all_device_paths(listing);
    if i == listing.len() - 1 {
        let n = choose|n: int| 0 <= n < own.len() && own[n] == object.path@;
        assert(paths[before.len() + n] == object.path@);
    } else {
        assert(is_object_at(listing.drop_last(), object, i, j, k));
        lemma_registered_is_listed(listing.drop_last(), object);
        let n = choose|n: int| 0 <= n < before.len() && before[n] == object.path@;
        assert(paths[n] == object.path@);
    }
}

proof fn lemma_object_of_path(objects: Seq<DeviceObject>, path: Seq<char>) -> (k: int)
    requires
        object_paths(objects).contains(path),
    ensures
        0 <= k < objects.len(),
        is_device_object(objects[k]),
        objects[k].path@ == path,
    decreases objects.len(),
{
    let before = object_paths(objects.drop_last());
    let paths = object_paths(objects);
    let n = choose|n: int| 0 <= n < paths.len() && paths[n] == path;
    if n < before.len() {
        assert(before[n] == path);
        lemma_object_of_path(objects.drop_last(), path)
    } else {
        objects.len() - 1
    }
}

proof fn lemma_device_of_path<T>(devices: Seq<Device<T>>, path: Seq<char>) -> (j: int)
    requires
        device_paths(devices).contains(path),
    ensures
        0 <= j < devices.len(),
        object_paths(devices[j].objects@).contains(path),
    decreases devices.len(),
{
    let before = device_paths(devices.drop_last());
    let own = object_paths(devices.last().objects@);
    let paths = device_paths(devices);
    let n = choose|n: int| 0 <= n < paths.len() && paths[n] == path;
    if n < before.len() {
        assert(before[n] == path);
        lemma_device_of_path(devices.drop_last(), path)
    } else {
        assert(own[n - before.len()] == path);
        devices.len() - 1
    }
}

/// Nothing is listed but the objects of registered devices.
pub proof fn lemma_listed_is_registered<T>(
    listing: Seq<(PathView, Seq<Device<T>>)>,
    path: Seq<char>,
)
    requires
        all_device_paths(listing).contains(path),
    ensures
        exists|object: DeviceObject| #[trigger]
            is_registered(listing, object) && is_device_object(object) && object.path@ == path,
    decreases listing.len(),
{
    let before = all_device_paths(listing.drop_last());
    let own = device_paths(listing.last().1);
    let paths = all_device_paths(listing);
    let n = choose|n: int| 0 <= n < paths.len() && paths[n] == path;
    if n < before.len() {
        assert(before[n] == path);
        lemma_listed_is_registered(listing.drop_last(), path);
        let object = choose|object: DeviceObject| #[trigger]
            is_registered(listing.drop_last(), object) && is_device_object(object) && object.path@
                == path;
        let (i, j, k) = choose|i: int, j: int, k: int| #[trigger]
            is_object_at(listing.drop_last(), object, i, j, k);
        assert(is_object_at(listing, object, i, j, k));
        assert(is_registered(listing, object));
    } else {
        assert(own[n - before.len()] == path);
        let i = listing.len() - 1;
        let j = lemma_device_of_path(listing[i].1, path);
        let k = lemma_object_of_path(listing[i].1[j].objects@, path);
        let object = listing[i].1[j].objects@[k];
        assert(is_object_at(listing, object, i, j, k));
        assert(is_registered(listing, object));
    }
}

/// A device is listed once it has been registered.
pub proof fn lemma_added_is_listed<T>(
    registry: Registry<T>,
    path: PathView,
    device: Device<T>,
    k: int,
    listing: Seq<(PathView, Seq<Device<T>>)>,
)
    requires
        0 <= k < device.objects@.len(),
        is_device_object(device.objects@[k]),
        is_listing(with_device(registry, path, device), listing),
    ensures
        all_device_paths(listing).contains(device.objects@[k].path@),
{
    assert(entries_map(listing).contains_key(path));
    let i = choose|i: int| has_key_at(listing, path, i);
    lemma_entry(listing, i);
    let j = listing[i].1.len() - 1;
    assert(listing[i].1[j] == device);
    assert(is_object_at(listing, device.objects@[k], i, j, k));
    lemma_registered_is_listed(listing, device.objects@[k]);
}

/// Whether a device that is registered for another USB device than the one at `path` has the
/// object path `text`.
pub open spec fn is_elsewhere<T>(registry: Registry<T>, path: PathView, text: Seq<char>) -> bool {
    exists|other: PathView, j: int, k: int| #[trigger]
        is_path_at(registry, other, j, k, text) && other != path
}

/// Whether `text` is the path of the object `k`, which stands for a device, of the device `j` of
/// the USB device at `path`.
pub open spec fn is_path_at<T>(
    registry: Registry<T>,
    path: PathView,
    j: int,
    k: int,
    text: Seq<char>,
) -> bool {
    &&& registry.contains_key(path)
    &&& 0 <= j < registry[path].len()
    &&& 0 <= k < registry[path][j].objects@.len()
    &&& is_device_object(registry[path][j].objects@[k])
    &&& registry[path][j].objects@[k].path@ == text
}

/// Once the devices of a USB device have been removed nothing is listed but the devices of others.
pub proof fn lemma_removed_is_not_listed<T>(
    registry: Registry<T>,
    path: PathView,
    listing: Seq<(PathView, Seq<Device<T>>)>,
    text: Seq<char>,
)
    requires
        is_listing(registry.remove(path), listing),
        all_device_paths(listing).contains(text),
    ensures
        is_elsewhere(registry, path, text),
{
    lemma_listed_is_registered(listing, text);
    let object = choose|object: DeviceObject| #[trigger]
        is_registered(listing, object) && is_device_object(object) && object.path@ == text;
    let (i, j, k) = choose|i: int, j: int, k: int| #[trigger]
        is_object_at(listing, object, i, j, k);
    lemma_entry(listing, i);
    assert(is_path_at(registry, listing[i].0, j, k, text));
}

/// The kinds of devices.
#[derive(Debug, Clone, Copy, PartialEq, Eq, Structural)]
pub enum DeviceType {
    Dock,
    Mouse,
}

impl DeviceType {
    /// The number that stands for the kind on the bus.
    pub fn value(self) -> (value: u32)
        ensures
            value == (match self {
                DeviceType::Dock => 1u32,
                DeviceType::Mouse => 2u32,
            }),
    {
        match self {
            DeviceType::Dock => 1,
            DeviceType::Mouse => 2,
        }
    }
}

/// What every device shows.
pub struct RazerDeviceService {
    pub name: &'static str,
    pub device_type: DeviceType,
    pub lighting_regions: Vec<ObjectPath>,
}

impl RazerDeviceService {
    /// The product name.
    pub fn name(&self) -> (name: &'static str)
        ensures
            name == self.name,
    {
        self.name
    }

    /// The kind of the device.
    pub fn device_type(&self) -> (device_type: DeviceType)
        ensures
            device_type == self.device_type,
    {
        self.device_type
    }

    /// The objects of the lighting regions.
    pub fn lighting_regions(&self) -> (regions: &Vec<ObjectPath>)
        ensures
            *regions == self.lighting_regions,
    {
        &self.lighting_regions
    }
}

/// What is known of a mouse.
#[derive(Debug, Clone, Copy, PartialEq, Eq, Structural)]
pub struct MouseState {
    pub is_connected: bool,
    /// In percent.
    pub battery_level: u8,
    pub is_charging: bool,
    pub dpi: u16,
}

impl Default for MouseState {
    /// A mouse that is not connected.
    fn default() -> (state: MouseState)
        ensures
            state == (MouseState {
                is_connected: false,
                battery_level: 0,
                is_charging: false,
                dpi: 0,
            }),
    {
        MouseState { is_connected: false, battery_level: 0, is_charging: false, dpi: 0 }
    }
}

/// What a mouse shows besides.
pub struct RazerMouseService {
    pub state: MouseState,
}

impl RazerMouseService {
    /// Whether the mouse is connected.
    pub fn is_connected(&self) -> (is_connected: bool)
        ensures
            is_connected == self.state.is_connected,
    {
        self.state.is_connected
    }

    /// Whether the mouse has a battery. All that are supported do.
    pub fn has_battery(&self) -> (has_battery: bool)
        ensures
            has_battery,
    {
        true
    }

    /// The battery level in percent.
    pub fn battery_level(&self) -> (battery_level: u8)
        ensures
            battery_level == self.state.battery_level,
    {
        self.state.battery_level
    }

    /// Whether the mouse charges.
    pub fn is_charging(&self) -> (is_charging: bool)
        ensures
            is_charging == self.state.is_charging,
    {
        self.state.is_charging
    }

    /// The resolution in dots per inch.
    pub fn dpi(&self) -> (dpi: u16)
        ensures
            dpi == self.state.dpi,
    {
        self.state.dpi
    }
}

/// What a lighting region shows.
pub struct LightingRegionInterface {
    pub device: RazerDevice,
    pub region: LightingRegion,
    pub brightness: u8,
    pub effects: Vec<u8>,
    pub effect: u8,
}

impl LightingRegionInterface {
    /// The id of the region.
    pub fn region_id(&self) -> (region_id: u8)
        ensures
            region_id == self.region.region_id,
    {
        self.region.region_id
    }

    /// The width of the region's matrix.
    pub fn matrix_x(&self) -> (matrix_x: u8)
        ensures
            matrix_x == self.region.matrix_x,
    {
        self.region.matrix_x
    }

    /// The height of the region's matrix.
    pub fn matrix_y(&self) -> (matrix_y: u8)
        ensures
            matrix_y == self.region.matrix_y,
    {
        self.region.matrix_y
    }

    /// The effects that the region can show.
    pub fn effects(&self) -> (effects: &Vec<u8>)
        ensures
            *effects == self.effects,
    {
        &self.effects
    }

    /// The brightness.
    pub fn brightness(&self) -> (brightness: u8)
        ensures
            brightness == self.brightness,
    {
        self.brightness
    }

    /// Asks the device for another brightness.
    pub fn set_brightness_request(&self, value: u8) -> (task: RequestTask)
        ensures
            is_task(
                task,
                self.device,
                0x0f,
                0x04,
                3,
                seq![0u8, self.region.region_id, value],
            ),
    {
        chroma::set_brightness(&self.device, self.region.region_id, value)
    }

    /// Takes on another brightness, if the device did.
    pub fn set_brightness<E>(&mut self, value: u8, reply: Result<Report, E>) -> (result: Result<
        (),
        E,
    >)
        ensures
            result is Ok <==> reply is Ok,
            result matches Err(error) ==> reply == Err::<Report, E>(error),
            final(self).brightness == (if reply is Ok {
                value
            } else {
                old(self).brightness
            }),
            final(self).device == old(self).device,
            final(self).region == old(self).region,
            final(self).effects == old(self).effects,
            final(self).effect == old(self).effect,
    {
        match reply {
            Ok(_) => {
                self.brightness = value;
                Ok(())
            },
            Err(error) => Err(error),
        }
    }

    /// The effect.
    pub fn effect(&self) -> (effect: u8)
        ensures
            effect == self.effect,
    {
        self.effect
    }

    /// Asks the device for another effect.
    pub fn set_effect_request(&self, value: u8) -> (task: RequestTask)
        ensures
            is_task(
                task,
                self.device,
                0x0f,
                0x02,
                80,
                seq![0u8, self.region.region_id, value],
            ),
    {
        chroma::set_effect_request(&self.device, self.region.region_id, value)
    }

    /// Tells whether the device took on another effect. The effect that is shown here stays.
    pub fn set_effect<E>(&mut self, reply: Result<Report, E>) -> (result: Result<(), E>)
        ensures
            result is Ok <==> reply is Ok,
            result matches Err(error) ==> reply == Err::<Report, E>(error),
            *final(self) == *old(self),
    {
        match reply {
            Ok(_) => Ok(()),
            Err(error) => Err(error),
        }
    }
}

/// The texts of paths are those of the paths, one by one.
pub proof fn lemma_path_texts(paths: Seq<ObjectPath>, i: int)
    ensures
        path_texts(paths).len() == paths.len(),
        0 <= i < paths.len() ==> path_texts(paths)[i] == paths[i]@,
{
}

/// What is listed of objects is listed one by one and in order: the path of an object, whole, if
/// the object has the interface of a device or that of a mouse, and otherwise nothing.
pub proof fn lemma_objects_listed_in_order(
    a: Seq<DeviceObject>,
    b: Seq<DeviceObject>,
    object: DeviceObject,
)
    ensures
        object_paths(Seq::empty()) == Seq::<Seq<char>>::empty(),
        (exists|i: int|
            0 <= i < object.interfaces@.len() && (#[trigger] object.interfaces@[i]
                == InterfaceName::Device || object.interfaces@[i] == InterfaceName::Mouse))
            ==> object_paths(seq![object]) == seq![object.path@],
        (forall|i: int|
            0 <= i < object.interfaces@.len() ==> #[trigger] object.interfaces@[i]
                != InterfaceName::Device && object.interfaces@[i] != InterfaceName::Mouse)
            ==> object_paths(seq![object]) == Seq::<Seq<char>>::empty(),
        object_paths(a + b) == object_paths(a) + object_paths(b),
    decreases b.len(),
{
    reveal_with_fuel(object_paths, 2);
    assert(seq![object].drop_last() =~= Seq::empty());
    assert(seq![object].last() == object);
    if is_device_object(object) {
        assert(object_paths(seq![object]) =~= seq![object.path@]);
        let wanted = if object.interfaces@.contains(InterfaceName::Device) {
            InterfaceName::Device
        } else {
            InterfaceName::Mouse
        };
        let i = choose|i: int| 0 <= i < object.interfaces@.len() && object.interfaces@[i] == wanted;
        assert(object.interfaces@[i] == wanted);
    } else {
        assert forall|i: int| 0 <= i < object.interfaces@.len() implies
            #[trigger] object.interfaces@[i] != InterfaceName::Device && object.interfaces@[i]
            != InterfaceName::Mouse by {}
    }
    if b.len() == 0 {
        assert(a + b =~= a);
        assert(object_paths(a) + object_paths(b) =~= object_paths(a));
    } else {
        lemma_objects_listed_in_order(a, b.drop_last(), object);
        assert((a + b).drop_last() =~= a + b.drop_last());
        assert((a + b).last() == b.last());
        assert(object_paths(a + b) =~= object_paths(a) + object_paths(b));
    }
}

/// What is listed of devices is listed device by device and in order.
pub proof fn lemma_devices_listed_in_order<T>(
    a: Seq<Device<T>>,
    b: Seq<Device<T>>,
    device: Device<T>,
)
    ensures
        device_paths(Seq::<Device<T>>::empty()) == Seq::<Seq<char>>::empty(),
        device_paths(seq![device]) == object_paths(device.objects@),
        device_paths(a + b) == device_paths(a) + device_paths(b),
    decreases b.len(),
{
    reveal_with_fuel(device_paths, 2);
    assert(seq![device].drop_last() =~= Seq::empty());
    assert(seq![device].last() == device);
    assert(device_paths(seq![device]) =~= object_paths(device.objects@));
    if b.len() == 0 {
        assert(a + b =~= a);
        assert(device_paths(a) + device_paths(b) =~= device_paths(a));
    } else {
        lemma_devices_listed_in_order(a, b.drop_last(), device);
        assert((a + b).drop_last() =~= a + b.drop_last());
        assert((a + b).last() == b.last());
        assert(device_paths(a + b) =~= device_paths(a) + device_paths(b));
    }
}

/// What is listed of USB devices is listed one by one and in order.
pub proof fn lemma_entries_listed_in_order<T>(
    a: Seq<(PathView, Seq<Device<T>>)>,
    b: Seq<(PathView, Seq<Device<T>>)>,
    entry: (PathView, Seq<Device<T>>),
)
    ensures
        all_device_paths(Seq::<(PathView, Seq<Device<T>>)>::empty()) == Seq::<Seq<char>>::empty(),
        all_device_paths(seq![entry]) == device_paths(entry.1),
        all_device_paths(a + b) == all_device_paths(a) + all_device_paths(b),
    decreases b.len(),
{
    reveal_with_fuel(all_device_paths, 2);
    assert(seq![entry].drop_last() =~= Seq::empty());
    assert(seq![entry].last() == entry);
    assert(all_device_paths(seq![entry]) =~= device_paths(entry.1));
    if b.len() == 0 {
        assert(a + b =~= a);
        assert(all_device_paths(a) + all_device_paths(b) =~= all_device_paths(a));
    } else {
        lemma_entries_listed_in_order(a, b.drop_last(), entry);
        assert((a + b).drop_last() =~= a + b.drop_last());
        assert((a + b).last() == b.last());
        assert(all_device_paths(a + b) =~= all_device_paths(a) + all_device_paths(b));
    }
}

} // verus!
