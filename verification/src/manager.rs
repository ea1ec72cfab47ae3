//! The registered devices and the objects that stand for them on the bus.

use vstd::prelude::*;

use crate::object_path::ObjectPath;
use crate::path::{
    absolute_path, is_plain_name, lemma_plain_paths_differ, path_components, path_less, PathView,
    SysPath,
};
use crate::path_map::{
    entries_map, has_key_at, lemma_entries_unique, lemma_entry, sorted, PathMap,
};

verus! {

/// The interfaces that the daemon serves.
#[derive(Debug, Clone, Copy, PartialEq, Eq, Structural)]
pub enum InterfaceName {
    DeviceManager,
    Device,
    Mouse,
    LightingRegion,
}

/// An object on the bus, and the interfaces that go when its device goes.
pub struct DeviceObject {
    pub path: ObjectPath,
    pub interfaces: Vec<InterfaceName>,
}

/// The mathematical value of a [`DeviceObject`].
pub struct DeviceObjectView {
    pub path: Seq<char>,
    pub interfaces: Seq<InterfaceName>,
}

impl View for DeviceObject {
    type V = DeviceObjectView;

    open spec fn view(&self) -> DeviceObjectView {
        DeviceObjectView { path: self.path@, interfaces: self.interfaces@ }
    }
}

/// The values of `objects`.
pub open spec fn object_views(objects: Seq<DeviceObject>) -> Seq<DeviceObjectView> {
    Seq::new(objects.len(), |i: int| objects[i]@)
}

/// A registered device: its objects, and the tasks that run for it.
pub struct Device<T> {
    pub objects: Vec<DeviceObject>,
    pub tasks: Vec<T>,
}

/// The devices by the paths of their USB devices, for each path in the order of registration.
pub type Registry<T> = Map<PathView, Seq<Device<T>>>;

/// The devices that are registered for the USB device at `path`.
pub open spec fn devices_at<T>(registry: Registry<T>, path: PathView) -> Seq<Device<T>> {
    if registry.contains_key(path) {
        registry[path]
    } else {
        Seq::empty()
    }
}

/// The devices that are registered once `device` has been.
pub open spec fn with_device<T>(
    registry: Registry<T>,
    path: PathView,
    device: Device<T>,
) -> Registry<T> {
    registry.insert(path, devices_at(registry, path).push(device))
}

/// The registered devices.
pub struct DeviceManager<T> {
    devices: PathMap<Vec<Device<T>>>,
}

impl<T> DeviceManager<T> {
    /// The devices.
    pub closed spec fn registry(self) -> Registry<T> {
        self.devices@.map_values(|devices: Vec<Device<T>>| devices@)
    }

    /// The devices, in the order of the paths of their USB devices.
    pub closed spec fn entries(self) -> Seq<(PathView, Seq<Device<T>>)> {
        let entries = self.devices.entries();
        Seq::new(entries.len(), |i: int| (entries[i].0, entries[i].1@))
    }

    /// The invariant of the collection.
    pub closed spec fn wf(self) -> bool {
        self.devices.wf()
    }

    /// No devices.
    pub fn new() -> (manager: DeviceManager<T>)
        ensures
            manager.wf(),
            manager.registry() == Registry::<T>::empty(),
    {
        let manager = DeviceManager { devices: PathMap::new() };
        assert(manager.registry() =~= Registry::<T>::empty());
        manager
    }

    /// Registers a device for the USB device at `syspath`.
    pub fn add_device(&mut self, syspath: SysPath, device: Device<T>)
        requires
            old(self).wf(),
        ensures
            final(self).wf(),
            final(self).registry() == with_device(old(self).registry(), syspath@, device),
            final(self).registry().contains_key(syspath@),
            final(self).registry()[syspath@] == (if old(self).registry().contains_key(syspath@) {
                old(self).registry()[syspath@]
            } else {
                Seq::empty()
            }).push(device),
    {
        let ghost before = self.registry();
        let mut devices = match self.devices.remove(&syspath) {
            Some(devices) => devices,
            None => Vec::new(),
        };
        assert(devices@ =~= devices_at(before, syspath@));
        devices.push(device);
        self.devices.insert(syspath, devices);
        assert(self.registry() =~= with_device(before, syspath@, device));
    }

    /// Takes out the devices that are registered for the USB device at `syspath`.
    pub fn remove_devices(&mut self, syspath: &SysPath) -> (devices: Vec<Device<T>>)
        requires
            old(self).wf(),
        ensures
            final(self).wf(),
            final(self).registry() == old(self).registry().remove(syspath@),
            devices@ == devices_at(old(self).registry(), syspath@),
            old(self).registry().contains_key(syspath@) ==> devices@
                == old(self).registry()[syspath@],
            !old(self).registry().contains_key(syspath@) ==> devices@.len() == 0,
    {
        let ghost before = self.registry();
        let devices = match self.devices.remove(syspath) {
            Some(devices) => devices,
            None => Vec::new(),
        };
        assert(self.registry() =~= before.remove(syspath@));
        assert(devices@ =~= devices_at(before, syspath@));
        devices
    }

    /// The number of USB devices for which devices are registered.
    pub fn len(&self) -> (len: usize)
        ensures
            len == self.entries().len(),
    {
        self.devices.len()
    }

    /// The devices of the USB device at position `i`.
    pub fn devices_at(&self, i: usize) -> (devices: &Vec<Device<T>>)
        requires
            i < self.entries().len(),
        ensures
            devices@ == self.entries()[i as int].1,
    {
        self.devices.value_at(i)
    }
}

/// Whether `listing` lists the registry in the order of the paths.
pub open spec fn is_listing<T>(
    registry: Registry<T>,
    listing: Seq<(PathView, Seq<Device<T>>)>,
) -> bool {
    sorted(listing) && entries_map(listing) == registry
}

impl<T> DeviceManager<T> {
    /// The entries list the registry, and nothing else does.
    pub proof fn lemma_entries(self)
        requires
            self.wf(),
        ensures
            is_listing(self.registry(), self.entries()),
            forall|listing: Seq<(PathView, Seq<Device<T>>)>| #[trigger]
                is_listing(self.registry(), listing) ==> listing == self.entries(),
    {
        let inner = self.devices.entries();
        let outer = self.entries();
        assert(sorted(outer)) by {
            assert forall|i: int, j: int| 0 <= i < j < outer.len() implies path_less(
                (#[trigger] outer[i]).0,
                (#[trigger] outer[j]).0,
            ) by {
                assert(path_less(inner[i].0, inner[j].0));
            }
        }
        assert forall|path: PathView| #[trigger] self.registry().contains_key(path)
            == entries_map(outer).contains_key(path) by {
            if self.registry().contains_key(path) {
                let i = choose|i: int| has_key_at(inner, path, i);
                assert(has_key_at(outer, path, i));
            }
            if entries_map(outer).contains_key(path) {
                let i = choose|i: int| has_key_at(outer, path, i);
                assert(has_key_at(inner, path, i));
            }
        }
        assert forall|path: PathView| #[trigger] self.registry().contains_key(
            path,
        ) implies self.registry()[path] == entries_map(outer)[path] by {
            let i = choose|i: int| has_key_at(inner, path, i);
            lemma_entry(inner, i);
            lemma_entry(outer, i);
        }
        assert(entries_map(outer) =~= self.registry());
        assert forall|listing: Seq<(PathView, Seq<Device<T>>)>| #[trigger]
            is_listing(self.registry(), listing) implies listing == outer by {
            lemma_entries_unique(listing, outer);
        }
    }
}

/// The devices of a USB device come out in the order in which they were registered, each once,
/// and those of other USB devices stay.
pub proof fn lemma_registered_until_removed<T>(
    registry: Registry<T>,
    path: PathView,
    device: Device<T>,
    other: PathView,
)
    requires
        other != path,
    ensures
        devices_at(with_device(registry, path, device), path) == devices_at(registry, path).push(
            device,
        ),
        devices_at(with_device(registry, path, device), other) == devices_at(registry, other),
        devices_at(registry.remove(path), path) == Seq::<Device<T>>::empty(),
        devices_at(registry.remove(path), other) == devices_at(registry, other),
{
}

/// The devices at a path are all that are registered there, in order, and none where none is; and
/// to register one adds it as the last at its own path and nowhere else.
pub proof fn lemma_registration<T>(
    registry: Registry<T>,
    path: PathView,
    device: Device<T>,
    other: PathView,
)
    ensures
        registry.contains_key(path) ==> devices_at(registry, path) == registry[path],
        !registry.contains_key(path) ==> devices_at(registry, path).len() == 0,
        ({
            let after = with_device(registry, path, device);
            &&& after.contains_key(path)
            &&& after[path].len() > 0
            &&& after[path].last() == device
            &&& registry.contains_key(path) ==> after[path].drop_last() == registry[path]
            &&& !registry.contains_key(path) ==> after[path].len() == 1
            &&& other != path ==> {
                &&& after.contains_key(other) == registry.contains_key(other)
                &&& registry.contains_key(other) ==> after[other] == registry[other]
            }
        }),
{
    if registry.contains_key(path) {
        assert(with_device(registry, path, device)[path].drop_last() =~= registry[path]);
    }
}

/// To take out what is registered for one USB device takes out nothing of a USB device whose path
/// is written otherwise, where the paths are absolute and made of plain names.
pub proof fn lemma_other_port_stays<T>(
    registry: Registry<T>,
    gone: Seq<Seq<u8>>,
    other: Seq<Seq<u8>>,
)
    requires
        gone.len() > 0,
        other.len() > 0,
        forall|i: int| 0 <= i < gone.len() ==> is_plain_name(#[trigger] gone[i]),
        forall|i: int| 0 <= i < other.len() ==> is_plain_name(#[trigger] other[i]),
        gone != other,
    ensures
        ({
            let path = path_components(absolute_path(other));
            let after = registry.remove(path_components(absolute_path(gone)));
            &&& after.contains_key(path) == registry.contains_key(path)
            &&& registry.contains_key(path) ==> after[path] == registry[path]
        }),
{
    if path_components(absolute_path(gone)) == path_components(absolute_path(other)) {
        lemma_plain_paths_differ(gone, other);
    }
}

/// A listing has each registered path once, in the order of the paths, with all of its devices, and
/// no other path.
pub proof fn lemma_listing<T>(
    registry: Registry<T>,
    listing: Seq<(PathView, Seq<Device<T>>)>,
    path: PathView,
)
    requires
        is_listing(registry, listing),
    ensures
        forall|i: int, j: int|
            0 <= i < j < listing.len() ==> path_less(
                (#[trigger] listing[i]).0,
                (#[trigger] listing[j]).0,
            ),
        forall|i: int|
            0 <= i < listing.len() ==> {
                &&& registry.contains_key((#[trigger] listing[i]).0)
                &&& registry[listing[i].0] == listing[i].1
            },
        registry.contains_key(path) ==> exists|i: int|
            0 <= i < listing.len() && (#[trigger] listing[i]).0 == path,
{
    assert forall|i: int| 0 <= i < listing.len() implies {
        &&& registry.contains_key((#[trigger] listing[i]).0)
        &&& registry[listing[i].0] == listing[i].1
    } by {
        lemma_entry(listing, i);
    }
    if registry.contains_key(path) {
        let i = choose|i: int| has_key_at(listing, path, i);
        assert(listing[i].0 == path);
    }
}

/// The values of objects are those of the objects, one by one, with the whole path and all the
/// interfaces in order.
pub proof fn lemma_object_values(objects: Seq<DeviceObject>, i: int)
    ensures
        object_views(objects).len() == objects.len(),
        0 <= i < objects.len() ==> object_views(objects)[i].path == objects[i].path@,
        0 <= i < objects.len() ==> object_views(objects)[i].interfaces == objects[i].interfaces@,
{
}

} // verus!
