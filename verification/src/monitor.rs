//! What the daemon does as devices come and go.

pub mod mouse;
pub mod setup;

use vstd::prelude::*;

use crate::manager::{devices_at, Device, DeviceManager, DeviceObject, InterfaceName};
use crate::object_path::ObjectPath;
use crate::path::{PathView, SysPath};
use crate::udev::history::{
    concerns, is_live, is_told_added, lemma_added_once_complete, lemma_one_product_keeps_interfaces,
};
use crate::udev::usb::{
    is_needed, no_devices, tells, usb_output, usb_step, Required, UsbDeviceEvent, UsbDeviceInfo,
    UsbMonitor, UsbState,
};
use crate::udev::{DeviceAction, DeviceEventView, KnownDevices};

verus! {

/// The vendor whose devices are driven.
pub const RAZER_VID: u16 = 0x1532;

/// The dock that is driven.
pub const RAZER_MOUSE_DOCK_PRO_PID: u16 = 0x00a4;

/// The mouse that is driven, as it is paired to a dock.
pub const RAZER_BASILISK_V3_PRO_35K_WIRELESS_PID: u16 = 0xcd;

/// The bits that the mouse wants in its transaction ids.
pub const RAZER_BASILISK_V3_PRO_35K_WIRELESS_BASE_TXN_ID: u8 = 0xe0;

/// The interface of the dock that takes feature reports, with which commands are sent.
pub const COMMAND_INTERFACE: u8 = 0;

/// The interface of the dock that sends input reports, which tell of changes.
pub const INPUT_INTERFACE: u8 = 1;

/// The seconds between two looks at the state of a mouse.
pub const POLL_INTERVAL_SECS: u64 = 150;

/// The interfaces that are needed: both of the dock's.
pub open spec fn dock_interfaces() -> Required {
    map![RAZER_MOUSE_DOCK_PRO_PID => seq![COMMAND_INTERFACE, INPUT_INTERFACE]]
}

/// The monitor of the devices that are driven.
pub fn razer_monitor() -> (monitor: UsbMonitor)
    ensures
        monitor.wf(),
        monitor.vendor_id() == RAZER_VID,
        monitor.required() == dock_interfaces(),
        monitor.known() == KnownDevices::empty(),
        monitor.state() == no_devices(),
{
    let mut interfaces: Vec<u8> = Vec::new();
    interfaces.push(COMMAND_INTERFACE);
    interfaces.push(INPUT_INTERFACE);
    assert(interfaces@ =~= seq![COMMAND_INTERFACE, INPUT_INTERFACE]);
    UsbMonitor::new(RAZER_VID).with_product(RAZER_MOUSE_DOCK_PRO_PID, interfaces)
}

/// Whatever the monitor adds is a dock with both of its interfaces.
pub proof fn lemma_dock_is_complete(state: UsbState, event: DeviceEventView)
    requires
        usb_step(dock_interfaces(), state, event).1 matches Some(e) && e.action
            == DeviceAction::Add,
    ensures
        ({
            let device = usb_step(dock_interfaces(), state, event).1->0.device;
            &&& device.product_id == RAZER_MOUSE_DOCK_PRO_PID
            &&& device.hid_interfaces.contains_key(COMMAND_INTERFACE)
            &&& device.hid_interfaces.contains_key(INPUT_INTERFACE)
        }),
{
    let device = usb_step(dock_interfaces(), state, event).1->0.device;
    let needed = dock_interfaces()[RAZER_MOUSE_DOCK_PRO_PID];
    assert(needed[0] == COMMAND_INTERFACE && needed[1] == INPUT_INTERFACE);
    assert(device.hid_interfaces.contains_key(needed[0]));
    assert(device.hid_interfaces.contains_key(needed[1]));
}

/// The addition of a dock is made known exactly when one of its two interfaces is added, the last
/// that was made known of the dock is not an addition, and both interfaces are live.
pub proof fn lemma_dock_added_once_complete(events: Seq<DeviceEventView>, path: PathView, i: int)
    requires
        0 <= i < events.len(),
    ensures
        tells(
            usb_output(dock_interfaces(), no_devices(), events, i),
            DeviceAction::Add,
            path,
        ) <==> {
            &&& concerns(dock_interfaces(), events[i], path)
            &&& events[i].action == DeviceAction::Add
            &&& !is_told_added(dock_interfaces(), events.take(i), path)
            &&& is_live(dock_interfaces(), events.take(i + 1), path, COMMAND_INTERFACE)
            &&& is_live(dock_interfaces(), events.take(i + 1), path, INPUT_INTERFACE)
        },
{
    let needed = dock_interfaces()[RAZER_MOUSE_DOCK_PRO_PID];
    assert(needed[0] == COMMAND_INTERFACE && needed[1] == INPUT_INTERFACE);
    lemma_one_product_keeps_interfaces(
        dock_interfaces(),
        events,
        path,
        RAZER_MOUSE_DOCK_PRO_PID,
    );
    lemma_added_once_complete(dock_interfaces(), events, path, i);
}

/// What is to be done about a USB device.
pub enum UdevAction {
    /// A dock is to be set up.
    ConnectDock(UsbDeviceInfo),
    /// What was registered for the device is to go.
    RemoveDevice(UsbDeviceInfo),
    /// Nothing.
    Ignore,
}

/// What is to be done about an event.
pub fn handle_udev_event(event: UsbDeviceEvent) -> (action: UdevAction)
    ensures
        action == (match event.action {
            DeviceAction::Add => if event.device.product_id == RAZER_MOUSE_DOCK_PRO_PID {
                UdevAction::ConnectDock(event.device)
            } else {
                UdevAction::Ignore
            },
            DeviceAction::Remove => UdevAction::RemoveDevice(event.device),
        }),
{
    match event.action {
        DeviceAction::Add => {
            if event.device.product_id == RAZER_MOUSE_DOCK_PRO_PID {
                UdevAction::ConnectDock(event.device)
            } else {
                UdevAction::Ignore
            }
        },
        DeviceAction::Remove => UdevAction::RemoveDevice(event.device),
    }
}

/// One step of the removal of a device. The steps end with the first that fails.
pub enum RemovalStep<T> {
    /// The interface of the object at this path is to go.
    RemoveInterface { path: ObjectPath, interface: InterfaceName },
    /// It is to be made known that the list of devices changed.
    NotifyDevicesChanged,
    /// The task is to be ended.
    AbortTask(T),
}

/// The mathematical value of a [`RemovalStep`].
pub enum RemovalView<T> {
    RemoveInterface { path: Seq<char>, interface: InterfaceName },
    NotifyDevicesChanged,
    AbortTask(T),
}

impl<T> View for RemovalStep<T> {
    type V = RemovalView<T>;

    open spec fn view(&self) -> RemovalView<T> {
        match *self {
            RemovalStep::RemoveInterface { path, interface } => RemovalView::RemoveInterface {
                path: path@,
                interface,
            },
            RemovalStep::NotifyDevicesChanged => RemovalView::NotifyDevicesChanged,
            RemovalStep::AbortTask(task) => RemovalView::AbortTask(task),
        }
    }
}

/// The values of `steps`.
pub open spec fn step_views<T>(steps: Seq<RemovalStep<T>>) -> Seq<RemovalView<T>> {
    Seq::new(steps.len(), |i: int| steps[i]@)
}

/// The removal of the interfaces of an object.
pub open spec fn interface_steps<T>(object: DeviceObject) -> Seq<RemovalView<T>> {
    Seq::new(
        object.interfaces@.len(),
        |i: int|
            RemovalView::RemoveInterface {
                path: object.path@,
                interface: object.interfaces@[i],
            },
    )
}

/// The removal of objects, one after the other: the interfaces go, and then that is made known.
pub open spec fn object_steps<T>(objects: Seq<DeviceObject>) -> Seq<RemovalView<T>>
    decreases objects.len(),
{
    if objects.len() == 0 {
        Seq::empty()
    } else {
        object_steps::<T>(objects.drop_last()) + interface_steps::<T>(objects.last()) + seq![
            RemovalView::NotifyDevicesChanged,
        ]
    }
}

/// The end of tasks.
pub open spec fn task_steps<T>(tasks: Seq<T>) -> Seq<RemovalView<T>> {
    tasks.map_values(|task: T| RemovalView::AbortTask(task))
}

/// The removal of devices, one after the other: the objects go, and then the tasks end.
pub open spec fn removal_steps<T>(devices: Seq<Device<T>>) -> Seq<RemovalView<T>>
    decreases devices.len(),
{
    if devices.len() == 0 {
        Seq::empty()
    } else {
        removal_steps(devices.drop_last()) + object_steps::<T>(devices.last().objects@)
            + task_steps(devices.last().tasks@)
    }
}

fn push_object_steps<T>(steps: &mut Vec<RemovalStep<T>>, object: &DeviceObject)
    ensures
        step_views(final(steps)@) == step_views(old(steps)@) + interface_steps::<T>(*object)
            + seq![RemovalView::NotifyDevicesChanged],
{
    let ghost start = step_views(steps@);
    let ghost all = interface_steps::<T>(*object);
    let mut i: usize = 0;
    assert(step_views(steps@) =~= start + all.take(0));
    while i < object.interfaces.len()
        invariant
            i <= object.interfaces.len(),
            all == interface_steps::<T>(*object),
            step_views(steps@) == start + all.take(i as int),
        decreases object.interfaces.len() - i,
    {
        let ghost before = step_views(steps@);
        let interface = object.interfaces[i];
        let path = object.path.duplicate();
        let ghost text = path@;
        steps.push(RemovalStep::RemoveInterface { path, interface });
        proof {
            let step = RemovalView::<T>::RemoveInterface { path: text, interface };
            assert(all[i as int] == step);
            assert(step_views(steps@) =~= before.push(step));
            assert(all.take(i + 1) =~= all.take(i as int).push(step));
        }
        i += 1;
        assert(step_views(steps@) =~= start + all.take(i as int));
    }
    let ghost before = step_views(steps@);
    steps.push(RemovalStep::NotifyDevicesChanged);
    assert(step_views(steps@) =~= before.push(RemovalView::NotifyDevicesChanged));
    assert(all.take(all.len() as int) =~= all);
    assert(step_views(steps@) =~= start + all + seq![RemovalView::NotifyDevicesChanged]);
}

fn push_device_steps<T>(steps: &mut Vec<RemovalStep<T>>, device: Device<T>)
    ensures
        step_views(final(steps)@) == step_views(old(steps)@) + object_steps::<T>(device.objects@)
            + task_steps(device.tasks@),
{
    let ghost start = step_views(steps@);
    let objects = device.objects;
    let mut i: usize = 0;
    assert(objects@.take(0) =~= Seq::empty());
    assert(step_views(steps@) =~= start + object_steps::<T>(objects@.take(0)));
    while i < objects.len()
        invariant
            i <= objects.len(),
            step_views(steps@) == start + object_steps::<T>(objects@.take(i as int)),
        decreases objects.len() - i,
    {
        proof {
            let next = objects@.take(i + 1);
            assert(next.drop_last() =~= objects@.take(i as int));
            assert(next.last() == objects@[i as int]);
        }
        push_object_steps(steps, &objects[i]);
        i += 1;
        assert(step_views(steps@) =~= start + object_steps::<T>(objects@.take(i as int)));
    }
    assert(objects@.take(objects@.len() as int) =~= objects@);
    let ghost middle = step_views(steps@);
    let ghost tasks = device.tasks@;
    assert(step_views(steps@) =~= middle + task_steps(tasks.take(0)));
    for task in rest: device.tasks
        invariant
            rest.seq() == tasks,
            step_views(steps@) == middle + task_steps(tasks.take(rest.index() as int)),
    {
        let ghost before = step_views(steps@);
        proof {
            assert(task_steps(tasks.take(rest.index() + 1)) =~= task_steps(
                tasks.take(rest.index() as int),
            ).push(RemovalView::AbortTask(task)));
        }
        steps.push(RemovalStep::AbortTask(task));
        assert(step_views(steps@) =~= before.push(RemovalView::AbortTask(task)));
        assert(step_views(steps@) =~= middle + task_steps(tasks.take(rest.index() + 1)));
    }
    assert(tasks.take(tasks.len() as int) =~= tasks);
}

/// Takes out what was registered for the USB device at `syspath`. The steps undo it.
pub fn handle_device_removed<T>(manager: &mut DeviceManager<T>, syspath: &SysPath) -> (steps: Vec<
    RemovalStep<T>,
>)
    requires
        old(manager).wf(),
    ensures
        final(manager).wf(),
        final(manager).registry() == old(manager).registry().remove(syspath@),
        step_views(steps@) == removal_steps(devices_at(old(manager).registry(), syspath@)),
{
    let devices = manager.remove_devices(syspath);
    let ghost all = devices@;
    let mut steps: Vec<RemovalStep<T>> = Vec::new();
    assert(all.take(0) =~= Seq::empty());
    assert(step_views(steps@) =~= removal_steps(all.take(0)));
    for device in rest: devices
        invariant
            rest.seq() == all,
            step_views(steps@) == removal_steps(all.take(rest.index() as int)),
    {
        proof {
            let next = all.take(rest.index() + 1);
            assert(next.drop_last() =~= all.take(rest.index() as int));
            assert(next.last() == device);
        }
        push_device_steps(&mut steps, device);
    }
    assert(all.take(all.len() as int) =~= all);
    steps
}

proof fn lemma_object_step<T>(objects: Seq<DeviceObject>, j: int, k: int)
    requires
        0 <= j < objects.len(),
        0 <= k < objects[j].interfaces@.len(),
    ensures
        object_steps::<T>(objects).contains(
            RemovalView::RemoveInterface {
                path: objects[j].path@,
                interface: objects[j].interfaces@[k],
            },
        ),
    decreases objects.len(),
{
    let step = RemovalView::<T>::RemoveInterface {
        path: objects[j].path@,
        interface: objects[j].interfaces@[k],
    };
    let before = object_steps::<T>(objects.drop_last());
    let steps = object_steps::<T>(objects);
    if j == objects.len() - 1 {
        assert(steps[before.len() + k] == interface_steps::<T>(objects[j])[k]);
        assert(steps[before.len() + k] == step);
    } else {
        lemma_object_step::<T>(objects.drop_last(), j, k);
        let n = choose|n: int| 0 <= n < before.len() && before[n] == step;
        assert(steps[n] == step);
    }
}

/// Every interface of every object of every device goes.
pub proof fn lemma_interface_removed<T>(devices: Seq<Device<T>>, i: int, j: int, k: int)
    requires
        0 <= i < devices.len(),
        0 <= j < devices[i].objects@.len(),
        0 <= k < devices[i].objects@[j].interfaces@.len(),
    ensures
        removal_steps(devices).contains(
            RemovalView::RemoveInterface {
                path: devices[i].objects@[j].path@,
                interface: devices[i].objects@[j].interfaces@[k],
            },
        ),
    decreases devices.len(),
{
    let step = RemovalView::<T>::RemoveInterface {
        path: devices[i].objects@[j].path@,
        interface: devices[i].objects@[j].interfaces@[k],
    };
    let before = removal_steps(devices.drop_last());
    let own = object_steps::<T>(devices.last().objects@);
    let steps = removal_steps(devices);
    if i == devices.len() - 1 {
        lemma_object_step::<T>(devices[i].objects@, j, k);
        let n = choose|n: int| 0 <= n < own.len() && own[n] == step;
        assert(steps[before.len() + n] == step);
    } else {
        lemma_interface_removed(devices.drop_last(), i, j, k);
        let n = choose|n: int| 0 <= n < before.len() && before[n] == step;
        assert(steps[n] == step);
    }
}

/// Every task of every device ends.
pub proof fn lemma_task_aborted<T>(devices: Seq<Device<T>>, i: int, k: int)
    requires
        0 <= i < devices.len(),
        0 <= k < devices[i].tasks@.len(),
    ensures
        removal_steps(devices).contains(RemovalView::AbortTask(devices[i].tasks@[k])),
    decreases devices.len(),
{
    let step = RemovalView::AbortTask(devices[i].tasks@[k]);
    let before = removal_steps(devices.drop_last());
    let own = object_steps::<T>(devices.last().objects@);
    let steps = removal_steps(devices);
    if i == devices.len() - 1 {
        assert(steps[before.len() + own.len() + k] == task_steps(devices[i].tasks@)[k]);
        assert(steps[before.len() + own.len() + k] == step);
    } else {
        lemma_task_aborted(devices.drop_last(), i, k);
        let n = choose|n: int| 0 <= n < before.len() && before[n] == step;
        assert(steps[n] == step);
    }
}

/// The interfaces that are needed are those numbered zero and one of the dock, and no others.
pub proof fn lemma_dock_interfaces_needed(pid: u16, number: u8)
    ensures
        is_needed(dock_interfaces(), pid, number) <==> pid == 0x00a4 && (number == 0 || number
            == 1),
{
    if pid == 0x00a4 {
        let needed = dock_interfaces()[pid];
        assert(needed.len() == 2 && needed[0] == 0 && needed[1] == 1);
    }
}

/// The values of steps are those of the steps, one by one, with the whole path of the object.
pub proof fn lemma_step_values<T>(steps: Seq<RemovalStep<T>>, i: int)
    ensures
        step_views(steps).len() == steps.len(),
        0 <= i < steps.len() ==> match steps[i] {
            RemovalStep::RemoveInterface { path, interface } => step_views(steps)[i]
                == (RemovalView::<T>::RemoveInterface { path: path@, interface }),
            RemovalStep::NotifyDevicesChanged => step_views(steps)[i]
                == RemovalView::<T>::NotifyDevicesChanged,
            RemovalStep::AbortTask(task) => step_views(steps)[i]
                == RemovalView::<T>::AbortTask(task),
        },
{
}

/// The removal of objects goes object by object: for each of its interfaces, in order, the removal
/// of that interface at the object's own path, and then once that it is made known.
pub proof fn lemma_objects_removed_in_order<T>(
    a: Seq<DeviceObject>,
    b: Seq<DeviceObject>,
    object: DeviceObject,
)
    ensures
        object_steps::<T>(Seq::empty()) == Seq::<RemovalView<T>>::empty(),
        object_steps::<T>(seq![object]).len() == object.interfaces@.len() + 1,
        forall|i: int|
            0 <= i < object.interfaces@.len() ==> object_steps::<T>(seq![object])[i] == (
            RemovalView::<T>::RemoveInterface {
                path: object.path@,
                interface: #[trigger] object.interfaces@[i],
            }),
        object_steps::<T>(seq![object]).last() == RemovalView::<T>::NotifyDevicesChanged,
        object_steps::<T>(a + b) == object_steps::<T>(a) + object_steps::<T>(b),
    decreases b.len(),
{
    reveal_with_fuel(object_steps, 2);
    assert(seq![object].drop_last() =~= Seq::empty());
    assert(seq![object].last() == object);
    assert(object_steps::<T>(seq![object]) =~= interface_steps::<T>(object).push(
        RemovalView::NotifyDevicesChanged,
    ));
    if b.len() == 0 {
        assert(a + b =~= a);
        assert(object_steps::<T>(a) + object_steps::<T>(b) =~= object_steps::<T>(a));
    } else {
        lemma_objects_removed_in_order::<T>(a, b.drop_last(), object);
        assert((a + b).drop_last() =~= a + b.drop_last());
        assert((a + b).last() == b.last());
        assert(object_steps::<T>(a + b) =~= object_steps::<T>(a) + object_steps::<T>(b));
    }
}

/// The removal of devices goes device by device: first its objects, and then the end of each of its
/// tasks, in order. Nothing is removed where there is no device.
pub proof fn lemma_devices_removed_in_order<T>(
    a: Seq<Device<T>>,
    b: Seq<Device<T>>,
    device: Device<T>,
)
    ensures
        removal_steps(Seq::<Device<T>>::empty()) == Seq::<RemovalView<T>>::empty(),
        removal_steps(seq![device]).len() == object_steps::<T>(device.objects@).len()
            + device.tasks@.len(),
        removal_steps(seq![device]).take(object_steps::<T>(device.objects@).len() as int)
            == object_steps::<T>(device.objects@),
        forall|i: int|
            0 <= i < device.tasks@.len() ==> removal_steps(seq![device])[object_steps::<T>(
                device.objects@,
            ).len() + i] == RemovalView::AbortTask(#[trigger] device.tasks@[i]),
        removal_steps(a + b) == removal_steps(a) + removal_steps(b),
    decreases b.len(),
{
    reveal_with_fuel(removal_steps, 2);
    assert(seq![device].drop_last() =~= Seq::empty());
    assert(seq![device].last() == device);
    let objects = object_steps::<T>(device.objects@);
    assert(removal_steps(seq![device]) =~= objects + task_steps(device.tasks@));
    assert(removal_steps(seq![device]).take(objects.len() as int) =~= objects);
    if b.len() == 0 {
        assert(a + b =~= a);
        assert(removal_steps(a) + removal_steps(b) =~= removal_steps(a));
    } else {
        lemma_devices_removed_in_order(a, b.drop_last(), device);
        assert((a + b).drop_last() =~= a + b.drop_last());
        assert((a + b).last() == b.last());
        assert(removal_steps(a + b) =~= removal_steps(a) + removal_steps(b));
    }
}

} // verus!
