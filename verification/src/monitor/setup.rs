//! How a dock and its mouse are set up, step by step.
//!
//! Each step is an action that takes place outside, and what came of it leads to the next one.
//! Where an action fails the setup ends.

use vstd::prelude::*;

use crate::dbus::{
    create_object_path, is_device_object, object_paths, path_texts, DeviceType,
    LightingRegionInterface, MouseState, RazerDeviceService, RazerMouseService,
};
use crate::driver::chroma;
use crate::driver::chroma::{regions_of, LightingRegion, MAX_REGIONS};
use crate::driver::devices::{
    big_endian, is_task, lemma_big_endian, lemma_task_asks, Mouse, MouseDock, RazerDevice,
    DOCK_BASE_TRANSACTION_ID, NO_PAIRED_DEVICE,
};
use crate::driver::protocol::{Report, RequestTask};
use crate::manager::{object_views, Device, DeviceObject, DeviceObjectView, InterfaceName};
use crate::monitor::mouse::{is_reading_task, reading_step, MouseReading, ReadingStep};
use crate::monitor::{
    lemma_interface_removed, removal_steps, RemovalView, COMMAND_INTERFACE, INPUT_INTERFACE,
    RAZER_BASILISK_V3_PRO_35K_WIRELESS_BASE_TXN_ID, RAZER_BASILISK_V3_PRO_35K_WIRELESS_PID,
    RAZER_MOUSE_DOCK_PRO_PID, RAZER_VID,
};
use crate::object_path::{
    create_region_path, device_object_path, lemma_device_path_injective,
    lemma_region_path_injective, region_object_path, ObjectPath,
};
use crate::path::{PathView, SysPath};
use crate::udev::usb::{interfaces_view, UsbDeviceInfo, UsbDeviceView};

verus! {

broadcast use vstd::laws_cmp::group_laws_cmp;

/// How far the setup of a dock has come.
#[derive(Debug, Clone, Copy, PartialEq, Eq, Structural)]
pub enum DockPhase {
    /// The device node is opened.
    Opening,
    /// The lighting regions are asked for.
    Regions,
    /// The brightness of a region is asked for.
    Brightness,
    /// The effects that a region can show are asked for.
    Effects,
    /// The effect that a region shows is asked for.
    Effect,
    /// The object of a region is put on the bus.
    MountingRegion,
    /// The object of the dock is put on the bus.
    MountingDevice,
    /// The dock is registered.
    Registering,
    /// The paired device is asked for.
    Pairing,
    /// The dock is set up.
    Finished,
}

/// A mouse that is paired to a dock.
pub struct PairedMouse {
    pub sysname: Vec<u8>,
    pub syspath: SysPath,
    /// The device node of the interface that sends input reports.
    pub reader_devnode: Vec<u8>,
    pub status: u8,
    pub pid: u16,
}

/// What is to be done for a dock.
pub enum DockAction<T> {
    /// Open the device node, to which all requests go.
    Open { devnode: Vec<u8> },
    /// Ask the dock.
    Request(RequestTask),
    /// Put a lighting region on the bus.
    MountRegion { path: ObjectPath, interface: LightingRegionInterface },
    /// Put the dock on the bus.
    MountDevice { path: ObjectPath, service: RazerDeviceService },
    /// Register the dock, and make known that the list of devices changed.
    Register { syspath: SysPath, device: Device<T> },
    /// Set up the paired mouse.
    ConnectMouse(PairedMouse),
    /// Nothing more.
    Finish,
}

/// The mathematical value of a [`DockSetup`].
pub struct DockView {
    pub device: UsbDeviceView,
    pub phase: DockPhase,
    pub regions: Seq<LightingRegion>,
    /// The number of regions that are on the bus.
    pub mounted: nat,
    /// The brightness of the region that is set up.
    pub brightness: u8,
    /// The effects that the region that is set up can show.
    pub effects: Seq<u8>,
}

/// The dock as a device that is asked.
pub open spec fn dock_device() -> RazerDevice {
    RazerDevice { base_transaction_id: DOCK_BASE_TRANSACTION_ID }
}

/// The path of a dock's object.
pub open spec fn dock_path(device: UsbDeviceView) -> Seq<char> {
    device_object_path(RAZER_VID, RAZER_MOUSE_DOCK_PRO_PID, device.sysname)
}

/// The paths of the objects of the regions of a dock.
pub open spec fn region_paths(
    device: UsbDeviceView,
    regions: Seq<LightingRegion>,
) -> Seq<Seq<char>> {
    regions.map_values(
        |region: LightingRegion| region_object_path(dock_path(device), region.region_id),
    )
}

/// The objects of the regions of a dock.
pub open spec fn region_objects(device: UsbDeviceView, regions: Seq<LightingRegion>) -> Seq<
    DeviceObjectView,
> {
    regions.map_values(
        |region: LightingRegion|
            DeviceObjectView {
                path: region_object_path(dock_path(device), region.region_id),
                interfaces: seq![InterfaceName::LightingRegion],
            },
    )
}

/// All the objects of a dock: those of its regions, and then its own.
pub open spec fn dock_objects(device: UsbDeviceView, regions: Seq<LightingRegion>) -> Seq<
    DeviceObjectView,
> {
    region_objects(device, regions).push(
        DeviceObjectView { path: dock_path(device), interfaces: seq![InterfaceName::Device] },
    )
}

/// What follows once `mounted` regions are on the bus: the next region, or the dock itself.
pub open spec fn next_phase(mounted: nat, regions: Seq<LightingRegion>) -> DockPhase {
    if mounted < regions.len() {
        DockPhase::Brightness
    } else {
        DockPhase::MountingDevice
    }
}

/// Whether `action` is what follows once the regions of `dock` that are mounted are.
pub open spec fn is_next_action<T>(dock: DockView, action: DockAction<T>) -> bool {
    if dock.mounted < dock.regions.len() {
        action matches DockAction::Request(task) && is_task(
            task,
            dock_device(),
            0x0f,
            0x84,
            3,
            seq![0u8, dock.regions[dock.mounted as int].region_id],
        )
    } else {
        action matches DockAction::MountDevice { path, service } && {
            &&& path@ == dock_path(dock.device)
            &&& service.name@ == "Mouse Dock Pro"@
            &&& service.device_type == DeviceType::Dock
            &&& path_texts(service.lighting_regions@) == region_paths(dock.device, dock.regions)
        }
    }
}

/// Whether the number of mounted regions fits the phase.
pub open spec fn is_valid_dock(dock: DockView) -> bool {
    match dock.phase {
        DockPhase::Opening | DockPhase::Regions => dock.mounted == 0,
        DockPhase::Brightness | DockPhase::Effects | DockPhase::Effect
            | DockPhase::MountingRegion => dock.mounted < dock.regions.len(),
        _ => dock.mounted == dock.regions.len(),
    }
}

/// Whether `dock` is in a phase in which a report is awaited.
pub open spec fn awaits_report(phase: DockPhase) -> bool {
    phase is Regions || phase is Brightness || phase is Effects || phase is Effect
        || phase is Pairing
}

/// Whether `report` is one of which the dock in `dock` can make something.
pub open spec fn is_usable(dock: DockView, report: Report) -> bool {
    match dock.phase {
        DockPhase::Regions => report.data_len / 5 <= MAX_REGIONS,
        DockPhase::Effects => 1 <= report.data_len <= 80,
        DockPhase::Pairing => big_endian(report.data@[2], report.data@[3]) == NO_PAIRED_DEVICE
            || dock.device.hid_interfaces.contains_key(INPUT_INTERFACE),
        _ => true,
    }
}

/// Whether a report leads from `before` to `after` and to `action`.
pub open spec fn is_report_step<T>(
    before: DockView,
    report: Report,
    after: DockView,
    action: DockAction<T>,
) -> bool {
    match before.phase {
        DockPhase::Regions => {
            &&& after.device == before.device
            &&& after.regions == regions_of(report)
            &&& after.mounted == 0
            &&& after.phase == next_phase(0, after.regions)
            &&& is_next_action(after, action)
        },
        DockPhase::Brightness => {
            &&& after == (DockView {
                phase: DockPhase::Effects,
                brightness: report.data@[2],
                ..before
            })
            &&& action matches DockAction::Request(task) && is_task(
                task,
                dock_device(),
                0x0f,
                0x81,
                80,
                seq![before.regions[before.mounted as int].region_id],
            )
        },
        DockPhase::Effects => {
            &&& after == (DockView {
                phase: DockPhase::Effect,
                effects: report.data@.subrange(1, report.data_len as int),
                ..before
            })
            &&& action matches DockAction::Request(task) && is_task(
                task,
                dock_device(),
                0x0f,
                0x82,
                80,
                seq![0u8, before.regions[before.mounted as int].region_id],
            )
        },
        DockPhase::Effect => {
            let region = before.regions[before.mounted as int];
            &&& after.device == before.device
            &&& after.phase == DockPhase::MountingRegion
            &&& after.regions == before.regions
            &&& after.mounted == before.mounted
            &&& action matches DockAction::MountRegion { path, interface } && {
                &&& path@ == region_object_path(dock_path(before.device), region.region_id)
                &&& interface.device == dock_device()
                &&& interface.region == region
                &&& interface.brightness == before.brightness
                &&& interface.effects@ == before.effects
                &&& interface.effect == report.data@[2]
            }
        },
        DockPhase::Pairing => {
            let pid = big_endian(report.data@[2], report.data@[3]);
            &&& after == (DockView { phase: DockPhase::Finished, ..before })
            &&& if pid == NO_PAIRED_DEVICE {
                action is Finish
            } else {
                action matches DockAction::ConnectMouse(mouse) && {
                    &&& mouse.sysname@ == before.device.sysname
                    &&& mouse.syspath@ == before.device.syspath
                    &&& mouse.reader_devnode@ == before.device.hid_interfaces[INPUT_INTERFACE]
                    &&& mouse.status == report.data@[1]
                    &&& mouse.pid == pid
                }
            }
        },
        _ => false,
    }
}

/// Whether `dock` is in a phase in which an action without an answer takes place.
pub open spec fn awaits_completion(phase: DockPhase) -> bool {
    phase is Opening || phase is MountingRegion || phase is MountingDevice || phase is Registering
}

/// Whether the completion of an action leads from `before` to `after` and to `action`.
pub open spec fn is_completion_step<T>(
    before: DockView,
    after: DockView,
    action: DockAction<T>,
) -> bool {
    match before.phase {
        DockPhase::Opening => {
            &&& after == (DockView { phase: DockPhase::Regions, ..before })
            &&& action matches DockAction::Request(task) && is_task(
                task,
                dock_device(),
                0x0f,
                0x80,
                80,
                Seq::empty(),
            )
        },
        DockPhase::MountingRegion => {
            &&& after.device == before.device
            &&& after.regions == before.regions
            &&& after.mounted == before.mounted + 1
            &&& after.phase == next_phase(after.mounted, after.regions)
            &&& is_next_action(after, action)
        },
        DockPhase::MountingDevice => {
            &&& after == (DockView { phase: DockPhase::Registering, ..before })
            &&& action matches DockAction::Register { syspath, device } && {
                &&& syspath@ == before.device.syspath
                &&& object_views(device.objects@) == dock_objects(before.device, before.regions)
                &&& device.tasks@ == Seq::<T>::empty()
            }
        },
        DockPhase::Registering => {
            &&& after == (DockView { phase: DockPhase::Pairing, ..before })
            &&& action matches DockAction::Request(task) && is_task(
                task,
                dock_device(),
                0x00,
                0xbf,
                80,
                Seq::empty(),
            )
        },
        _ => false,
    }
}

/// The setup of a dock.
pub struct DockSetup {
    device: UsbDeviceInfo,
    dock: MouseDock,
    object_path: ObjectPath,
    phase: DockPhase,
    regions: Vec<LightingRegion>,
    mounted: usize,
    brightness: u8,
    effects: Vec<u8>,
    objects: Vec<DeviceObject>,
    lighting_region_paths: Vec<ObjectPath>,
}

impl View for DockSetup {
    type V = DockView;

    closed spec fn view(&self) -> DockView {
        DockView {
            device: self.device@,
            phase: self.phase,
            regions: self.regions@,
            mounted: self.mounted as nat,
            brightness: self.brightness,
            effects: self.effects@,
        }
    }
}

impl DockSetup {
    /// The invariant: what has been collected is that of the regions that are mounted.
    pub closed spec fn wf(self) -> bool {
        let done = self.regions@.take(self.mounted as int);
        &&& self.dock.device == dock_device()
        &&& self.object_path@ == dock_path(self.device@)
        &&& is_valid_dock(self@)
        &&& !(self.phase is Registering || self.phase is Pairing || self.phase is Finished)
            ==> object_views(self.objects@) == region_objects(self.device@, done)
        &&& !(self.phase is MountingDevice || self.phase is Registering || self.phase is Pairing
            || self.phase is Finished) ==> path_texts(self.lighting_region_paths@)
            == region_paths(self.device@, done)
    }

    /// The phase.
    pub fn phase(&self) -> (phase: DockPhase)
        ensures
            phase == self@.phase,
    {
        self.phase
    }

    /// Starts to set up the dock `device`.
    pub fn start<T>(device: UsbDeviceInfo) -> (started: (DockSetup, DockAction<T>))
        requires
            device@.hid_interfaces.contains_key(COMMAND_INTERFACE),
        ensures
            started.0.wf(),
            is_valid_dock(started.0@),
            started.0@.device == device@,
            started.0@.phase == DockPhase::Opening,
            started.0@.regions == Seq::<LightingRegion>::empty(),
            started.0@.mounted == 0,
            started.1 matches DockAction::Open { devnode } && devnode@
                == device@.hid_interfaces[COMMAND_INTERFACE],
    {
        let devnode = match device.hid_interfaces.get(&COMMAND_INTERFACE) {
            Some(devnode) => devnode.clone(),
            None => Vec::new(),
        };
        assert(devnode@ =~= device@.hid_interfaces[COMMAND_INTERFACE]);
        let object_path = create_object_path(
            RAZER_VID,
            RAZER_MOUSE_DOCK_PRO_PID,
            device.sysname.as_slice(),
        ).unwrap();
        let setup = DockSetup {
            device,
            dock: MouseDock::new(),
            object_path,
            phase: DockPhase::Opening,
            regions: Vec::new(),
            mounted: 0,
            brightness: 0,
            effects: Vec::new(),
            objects: Vec::new(),
            lighting_region_paths: Vec::new(),
        };
        assert(object_views(setup.objects@) =~= region_objects(device@, setup.regions@.take(0)));
        assert(path_texts(setup.lighting_region_paths@) =~= region_paths(
            device@,
            setup.regions@.take(0),
        ));
        assert(setup@.regions =~= Seq::empty());
        (setup, DockAction::Open { devnode })
    }

    /// Goes on with the next region, or with the dock itself.
    fn next<T>(self) -> (next: (DockSetup, DockAction<T>))
        requires
            self.collected(),
        ensures
            next.0.wf(),
            next.0@.device == self@.device,
            next.0@.regions == self@.regions,
            next.0@.mounted == self@.mounted,
            next.0@.phase == next_phase(self@.mounted, self@.regions),
            is_next_action(next.0@, next.1),
    {
        let mut setup = self;
        if setup.mounted < setup.regions.len() {
            setup.phase = DockPhase::Brightness;
            let region_id = setup.regions[setup.mounted].region_id;
            let task = chroma::brightness_request(&setup.dock.device, region_id);
            (setup, DockAction::Request(task))
        } else {
            setup.phase = DockPhase::MountingDevice;
            assert(setup.regions@.take(setup.mounted as int) =~= setup.regions@);
            let mut lighting_regions: Vec<ObjectPath> = Vec::new();
            core::mem::swap(&mut lighting_regions, &mut setup.lighting_region_paths);
            let service = RazerDeviceService {
                name: "Mouse Dock Pro",
                device_type: DeviceType::Dock,
                lighting_regions,
            };
            let path = setup.object_path.duplicate();
            (setup, DockAction::MountDevice { path, service })
        }
    }

    /// What has been collected is that of the regions that are mounted.
    spec fn collected(self) -> bool {
        let done = self.regions@.take(self.mounted as int);
        &&& self.dock.device == dock_device()
        &&& self.object_path@ == dock_path(self.device@)
        &&& self.mounted <= self.regions.len()
        &&& object_views(self.objects@) == region_objects(self.device@, done)
        &&& path_texts(self.lighting_region_paths@) == region_paths(self.device@, done)
    }

    /// Goes on with an answer of the dock.
    pub fn on_report<T>(self, report: &Report) -> (next: (DockSetup, DockAction<T>))
        requires
            self.wf(),
            awaits_report(self@.phase),
            is_usable(self@, *report),
        ensures
            next.0.wf(),
            is_valid_dock(next.0@),
            is_report_step(self@, *report, next.0@, next.1),
    {
        let mut setup = self;
        match setup.phase {
            DockPhase::Regions => {
                setup.regions = chroma::get_lighting_regions(report);
                assert(self.regions@.take(0) =~= setup.regions@.take(0));
                setup.next()
            },
            DockPhase::Brightness => {
                setup.brightness = chroma::get_brightness(report);
                setup.phase = DockPhase::Effects;
                let region_id = setup.regions[setup.mounted].region_id;
                let task = chroma::available_effects_request(&setup.dock.device, region_id);
                (setup, DockAction::Request(task))
            },
            DockPhase::Effects => {
                setup.effects = chroma::get_available_effects(report);
                setup.phase = DockPhase::Effect;
                let region_id = setup.regions[setup.mounted].region_id;
                let task = chroma::effect_request(&setup.dock.device, region_id);
                (setup, DockAction::Request(task))
            },
            DockPhase::Effect => {
                let effect = chroma::get_effect(report);
                setup.phase = DockPhase::MountingRegion;
                let region = setup.regions[setup.mounted];
                let mut effects: Vec<u8> = Vec::new();
                core::mem::swap(&mut effects, &mut setup.effects);
                let interface = LightingRegionInterface {
                    device: setup.dock.into_generic(),
                    region,
                    brightness: setup.brightness,
                    effects,
                    effect,
                };
                let path = setup.region_path(region.region_id);
                (setup, DockAction::MountRegion { path, interface })
            },
            _ => {
                setup.phase = DockPhase::Finished;
                match MouseDock::get_paired_device(report) {
                    None => (setup, DockAction::Finish),
                    Some((status, pid)) => {
                        let reader_devnode = match setup.device.hid_interfaces.get(
                            &INPUT_INTERFACE,
                        ) {
                            Some(devnode) => devnode.clone(),
                            None => Vec::new(),
                        };
                        let sysname = setup.device.sysname.clone();
                        assert(reader_devnode@ =~= self@.device.hid_interfaces[INPUT_INTERFACE]);
                        assert(sysname@ =~= self@.device.sysname);
                        let syspath = setup.device.syspath.duplicate();
                        (
                            setup,
                            DockAction::ConnectMouse(
                                PairedMouse { sysname, syspath, reader_devnode, status, pid },
                            ),
                        )
                    },
                }
            },
        }
    }

    /// The path of the object of a region.
    fn region_path(&self, region_id: u8) -> (path: ObjectPath)
        requires
            self.object_path@ == dock_path(self.device@),
        ensures
            path@ == region_object_path(dock_path(self.device@), region_id),
    {
        proof {
            reveal_strlit("/dev/hasali/Fang/");
            assert(self.object_path@.len() > 1);
        }
        create_region_path(&self.object_path, region_id).unwrap()
    }

    /// Goes on once the last action has taken place.
    pub fn on_done<T>(self) -> (next: (DockSetup, DockAction<T>))
        requires
            self.wf(),
            awaits_completion(self@.phase),
        ensures
            next.0.wf(),
            is_valid_dock(next.0@),
            is_completion_step(self@, next.0@, next.1),
    {
        let mut setup = self;
        match setup.phase {
            DockPhase::Opening => {
                setup.phase = DockPhase::Regions;
                let task = chroma::lighting_regions_request(&setup.dock.device);
                (setup, DockAction::Request(task))
            },
            DockPhase::MountingRegion => {
                let region_id = setup.regions[setup.mounted].region_id;
                let path = setup.region_path(region_id);
                setup.lighting_region_paths.push(path.duplicate());
                let mut interfaces: Vec<InterfaceName> = Vec::new();
                interfaces.push(InterfaceName::LightingRegion);
                assert(interfaces@ =~= seq![InterfaceName::LightingRegion]);
                setup.objects.push(DeviceObject { path, interfaces });
                assert(self.mounted < self.regions.len());
                setup.mounted = setup.mounted + 1;
                proof {
                    let done = self.regions@.take(self.mounted as int);
                    let more = setup.regions@.take(setup.mounted as int);
                    assert(more =~= done.push(self.regions@[self.mounted as int]));
                    let region = self.regions@[self.mounted as int];
                    let text = region_object_path(dock_path(self.device@), region.region_id);
                    let object = DeviceObjectView {
                        path: text,
                        interfaces: seq![InterfaceName::LightingRegion],
                    };
                    assert(object_views(setup.objects@) =~= object_views(self.objects@).push(
                        object,
                    ));
                    assert(region_objects(self.device@, more) =~= region_objects(
                        self.device@,
                        done,
                    ).push(object));
                    assert(path_texts(setup.lighting_region_paths@) =~= path_texts(
                        self.lighting_region_paths@,
                    ).push(text));
                    assert(region_paths(self.device@, more) =~= region_paths(
                        self.device@,
                        done,
                    ).push(text));
                }
                setup.next()
            },
            DockPhase::MountingDevice => {
                setup.phase = DockPhase::Registering;
                let mut interfaces: Vec<InterfaceName> = Vec::new();
                interfaces.push(InterfaceName::Device);
                assert(interfaces@ =~= seq![InterfaceName::Device]);
                let path = setup.object_path.duplicate();
                let mut objects: Vec<DeviceObject> = Vec::new();
                core::mem::swap(&mut objects, &mut setup.objects);
                objects.push(DeviceObject { path, interfaces });
                proof {
                    assert(self.regions@.take(self.mounted as int) =~= self.regions@);
                    assert(object_views(objects@) =~= dock_objects(self@.device, self@.regions));
                }
                let syspath = setup.device.syspath.duplicate();
                let device = Device { objects, tasks: Vec::new() };
                (setup, DockAction::Register { syspath, device })
            },
            _ => {
                setup.phase = DockPhase::Pairing;
                let task = setup.dock.paired_device_request();
                (setup, DockAction::Request(task))
            },
        }
    }
}

/// How far the setup of a mouse has come.
#[derive(Debug, Clone, Copy, PartialEq, Eq, Structural)]
pub enum MousePhase {
    /// The state of the mouse is read.
    Reading(MouseReading),
    /// The object of the mouse is put on the bus as that of a device.
    MountingDevice,
    /// The object of the mouse is put on the bus as that of a mouse.
    MountingMouse,
    /// The tasks that follow the mouse are started.
    Starting,
    /// The mouse is registered.
    Registering,
    /// The mouse is set up.
    Finished,
}

/// What is to be done for a mouse.
pub enum MouseAction<T> {
    /// Ask the mouse.
    Request(RequestTask),
    /// Put the mouse on the bus as a device.
    MountDevice { path: ObjectPath, service: RazerDeviceService },
    /// Put the mouse on the bus as a mouse.
    MountMouse { path: ObjectPath, mouse_service: RazerMouseService },
    /// Start the task that reads the input reports from the device node, and the one that looks
    /// at the state of the mouse from time to time.
    StartTasks { path: ObjectPath, reader_devnode: Vec<u8>, mouse: Mouse },
    /// Register the mouse, and make known that the list of devices changed.
    Register { syspath: SysPath, device: Device<T> },
    /// Nothing more.
    Finish,
}

/// The mathematical value of a [`PairedMouse`].
pub struct PairedMouseView {
    pub sysname: Seq<u8>,
    pub syspath: PathView,
    pub reader_devnode: Seq<u8>,
    pub status: u8,
    pub pid: u16,
}

impl View for PairedMouse {
    type V = PairedMouseView;

    open spec fn view(&self) -> PairedMouseView {
        PairedMouseView {
            sysname: self.sysname@,
            syspath: self.syspath@,
            reader_devnode: self.reader_devnode@,
            status: self.status,
            pid: self.pid,
        }
    }
}

/// The mathematical value of a [`MouseSetup`].
pub struct MouseView {
    pub paired: PairedMouseView,
    pub phase: MousePhase,
    /// The state of the mouse, once it has been read.
    pub state: MouseState,
}

/// The mouse as a device that is asked.
pub open spec fn basilisk() -> Mouse {
    Mouse {
        device: RazerDevice {
            base_transaction_id: RAZER_BASILISK_V3_PRO_35K_WIRELESS_BASE_TXN_ID,
        },
    }
}

/// The state of a mouse that is not connected.
pub open spec fn disconnected() -> MouseState {
    MouseState { is_connected: false, battery_level: 0, is_charging: false, dpi: 0 }
}

/// The path of a mouse's object.
pub open spec fn mouse_path(paired: PairedMouseView) -> Seq<char> {
    device_object_path(RAZER_VID, paired.pid, paired.sysname)
}

/// Whether `action` puts the mouse on the bus as a device.
pub open spec fn is_mount_device<T>(paired: PairedMouseView, action: MouseAction<T>) -> bool {
    action matches MouseAction::MountDevice { path, service } && {
        &&& path@ == mouse_path(paired)
        &&& service.name@ == "Basilisk V3 Pro 35K"@
        &&& service.device_type == DeviceType::Mouse
        &&& service.lighting_regions@ == Seq::<ObjectPath>::empty()
    }
}

/// The objects with which a mouse is registered.
pub open spec fn mouse_objects(paired: PairedMouseView) -> Seq<DeviceObjectView> {
    seq![DeviceObjectView { path: mouse_path(paired), interfaces: seq![InterfaceName::Mouse] }]
}

/// The setup of a mouse that is paired to a dock.
pub struct MouseSetup {
    paired: PairedMouse,
    mouse: Mouse,
    object_path: ObjectPath,
    phase: MousePhase,
    state: MouseState,
}

impl View for MouseSetup {
    type V = MouseView;

    closed spec fn view(&self) -> MouseView {
        MouseView { paired: self.paired@, phase: self.phase, state: self.state }
    }
}

impl MouseSetup {
    /// The invariant.
    pub closed spec fn wf(self) -> bool {
        &&& self.mouse == basilisk()
        &&& self.object_path@ == mouse_path(self.paired@)
    }

    /// The phase.
    pub fn phase(&self) -> (phase: MousePhase)
        ensures
            phase == self@.phase,
    {
        self.phase
    }

    /// Starts to set up a paired mouse, if it is one that is driven. Its state is read if it is
    /// connected.
    pub fn start<T>(paired: PairedMouse) -> (started: Option<(MouseSetup, MouseAction<T>)>)
        ensures
            started is Some <==> paired.pid == RAZER_BASILISK_V3_PRO_35K_WIRELESS_PID,
            started matches Some((setup, action)) ==> {
                &&& setup.wf()
                &&& setup@.paired == paired@
                &&& setup@.state == disconnected()
                &&& if paired.status == 1 {
                    &&& setup@.phase == MousePhase::Reading(MouseReading::Battery)
                    &&& action matches MouseAction::Request(task) && is_reading_task(
                        task,
                        basilisk(),
                        MouseReading::Battery,
                    )
                } else {
                    &&& setup@.phase == MousePhase::MountingDevice
                    &&& is_mount_device(paired@, action)
                }
            },
    {
        if paired.pid != RAZER_BASILISK_V3_PRO_35K_WIRELESS_PID {
            return None;
        }
        let object_path = create_object_path(
            RAZER_VID,
            paired.pid,
            paired.sysname.as_slice(),
        ).unwrap();
        let connected = paired.status == 1;
        let mouse = Mouse::new(RAZER_BASILISK_V3_PRO_35K_WIRELESS_BASE_TXN_ID);
        let setup = MouseSetup {
            paired,
            mouse,
            object_path,
            phase: MousePhase::Reading(MouseReading::Battery),
            state: MouseState::default(),
        };
        if connected {
            let task = MouseReading::Battery.request(&mouse);
            Some((setup, MouseAction::Request(task)))
        } else {
            Some(setup.mount_device())
        }
    }

    /// Goes on with the object of the mouse.
    fn mount_device<T>(self) -> (next: (MouseSetup, MouseAction<T>))
        requires
            self.wf(),
        ensures
            next.0.wf(),
            next.0@ == (MouseView { phase: MousePhase::MountingDevice, ..self@ }),
            is_mount_device(self@.paired, next.1),
    {
        let mut setup = self;
        setup.phase = MousePhase::MountingDevice;
        let path = setup.object_path.duplicate();
        let service = RazerDeviceService {
            name: "Basilisk V3 Pro 35K",
            device_type: DeviceType::Mouse,
            lighting_regions: Vec::new(),
        };
        (setup, MouseAction::MountDevice { path, service })
    }

    /// Goes on with an answer of the mouse.
    pub fn on_report<T>(self, report: &Report) -> (next: (MouseSetup, MouseAction<T>))
        requires
            self.wf(),
            self@.phase is Reading,
        ensures
            next.0.wf(),
            match reading_step(self@.phase->Reading_0, report.data@) {
                ReadingStep::More(reading) => {
                    &&& next.0@ == (MouseView { phase: MousePhase::Reading(reading), ..self@ })
                    &&& next.1 matches MouseAction::Request(task) && is_reading_task(
                        task,
                        basilisk(),
                        reading,
                    )
                },
                ReadingStep::Done(state) => {
                    &&& next.0@ == (MouseView { phase: MousePhase::MountingDevice, state, ..self@ })
                    &&& is_mount_device(self@.paired, next.1)
                },
            },
    {
        let mut setup = self;
        let reading = match setup.phase {
            MousePhase::Reading(reading) => reading,
            _ => MouseReading::Battery,
        };
        match reading.on_report(report) {
            ReadingStep::More(reading) => {
                setup.phase = MousePhase::Reading(reading);
                let task = reading.request(&setup.mouse);
                (setup, MouseAction::Request(task))
            },
            ReadingStep::Done(state) => {
                setup.state = state;
                setup.mount_device()
            },
        }
    }

    /// Goes on once the last action has taken place.
    pub fn on_done<T>(self) -> (next: (MouseSetup, MouseAction<T>))
        requires
            self.wf(),
            self@.phase is MountingDevice || self@.phase is MountingMouse || self@.phase
                is Registering,
        ensures
            next.0.wf(),
            match self@.phase {
                MousePhase::MountingDevice => {
                    &&& next.0@ == (MouseView { phase: MousePhase::MountingMouse, ..self@ })
                    &&& next.1 matches MouseAction::MountMouse { path, mouse_service } && {
                        &&& path@ == mouse_path(self@.paired)
                        &&& mouse_service.state == self@.state
                    }
                },
                MousePhase::MountingMouse => {
                    &&& next.0@ == (MouseView { phase: MousePhase::Starting, ..self@ })
                    &&& next.1 matches MouseAction::StartTasks { path, reader_devnode, mouse } && {
                        &&& path@ == mouse_path(self@.paired)
                        &&& reader_devnode@ == self@.paired.reader_devnode
                        &&& mouse == basilisk()
                    }
                },
                _ => {
                    &&& next.0@ == (MouseView { phase: MousePhase::Finished, ..self@ })
                    &&& next.1 is Finish
                },
            },
    {
        let mut setup = self;
        match setup.phase {
            MousePhase::MountingDevice => {
                setup.phase = MousePhase::MountingMouse;
                let path = setup.object_path.duplicate();
                let mouse_service = RazerMouseService { state: setup.state };
                (setup, MouseAction::MountMouse { path, mouse_service })
            },
            MousePhase::MountingMouse => {
                setup.phase = MousePhase::Starting;
                let path = setup.object_path.duplicate();
                let reader_devnode = setup.paired.reader_devnode.clone();
                assert(reader_devnode@ =~= self@.paired.reader_devnode);
                let mouse = setup.mouse;
                (setup, MouseAction::StartTasks { path, reader_devnode, mouse })
            },
            _ => {
                setup.phase = MousePhase::Finished;
                (setup, MouseAction::Finish)
            },
        }
    }

    /// Goes on with the tasks that were started.
    pub fn on_started<T>(self, tasks: Vec<T>) -> (next: (MouseSetup, MouseAction<T>))
        requires
            self.wf(),
            self@.phase is Starting,
        ensures
            next.0.wf(),
            next.0@ == (MouseView { phase: MousePhase::Registering, ..self@ }),
            next.1 matches MouseAction::Register { syspath, device } && {
                &&& syspath@ == self@.paired.syspath
                &&& object_views(device.objects@) == mouse_objects(self@.paired)
                &&& device.tasks == tasks
            },
    {
        let mut setup = self;
        setup.phase = MousePhase::Registering;
        let mut interfaces: Vec<InterfaceName> = Vec::new();
        interfaces.push(InterfaceName::Mouse);
        assert(interfaces@ =~= seq![InterfaceName::Mouse]);
        let mut objects: Vec<DeviceObject> = Vec::new();
        objects.push(DeviceObject { path: setup.object_path.duplicate(), interfaces });
        assert(object_views(objects@) =~= mouse_objects(self@.paired));
        let syspath = setup.paired.syspath.duplicate();
        (setup, MouseAction::Register { syspath, device: Device { objects, tasks } })
    }
}

/// A bound on the number of steps that the setup of a dock still takes.
pub open spec fn steps_left(dock: DockView) -> int {
    let regions_left = dock.regions.len() - dock.mounted;
    match dock.phase {
        DockPhase::Opening => 4 * MAX_REGIONS + 5,
        DockPhase::Regions => 4 * MAX_REGIONS + 4,
        DockPhase::Brightness => 4 * regions_left + 3,
        DockPhase::Effects => 4 * regions_left + 2,
        DockPhase::Effect => 4 * regions_left + 1,
        DockPhase::MountingRegion => 4 * regions_left,
        DockPhase::MountingDevice => 3,
        DockPhase::Registering => 2,
        DockPhase::Pairing => 1,
        DockPhase::Finished => 0,
    }
}

/// The setup of a dock comes to an end: each step brings it closer.
pub proof fn lemma_setup_ends<T>(
    before: DockView,
    report: Report,
    after: DockView,
    action: DockAction<T>,
)
    requires
        is_valid_dock(before),
        is_valid_dock(after),
        (awaits_report(before.phase) && is_usable(before, report) && is_report_step(
            before,
            report,
            after,
            action,
        )) || (awaits_completion(before.phase) && is_completion_step(before, after, action)),
    ensures
        0 <= steps_left(after) < steps_left(before),
{
}

/// A dock is registered with all that was put on the bus for it: each of its regions, and itself.
pub proof fn lemma_dock_objects_cover(device: UsbDeviceView, regions: Seq<LightingRegion>, i: int)
    requires
        0 <= i < regions.len(),
    ensures
        dock_objects(device, regions).contains(
            DeviceObjectView {
                path: region_object_path(dock_path(device), regions[i].region_id),
                interfaces: seq![InterfaceName::LightingRegion],
            },
        ),
        dock_objects(device, regions).contains(
            DeviceObjectView { path: dock_path(device), interfaces: seq![InterfaceName::Device] },
        ),
{
    let objects = dock_objects(device, regions);
    assert(objects[i].path == region_object_path(dock_path(device), regions[i].region_id));
    assert(objects[regions.len() as int].path == dock_path(device));
}

/// No two regions of a dock have the same object, and none has that of the dock, if their ids
/// differ.
pub proof fn lemma_dock_paths_distinct(
    device: UsbDeviceView,
    regions: Seq<LightingRegion>,
    i: int,
    j: int,
)
    requires
        0 <= i < regions.len(),
        0 <= j < regions.len(),
        regions[i].region_id != regions[j].region_id,
    ensures
        region_paths(device, regions)[i] != region_paths(device, regions)[j],
        region_paths(device, regions)[i] != dock_path(device),
{
    lemma_region_path_injective(
        dock_path(device),
        regions[i].region_id,
        regions[j].region_id,
    );
}

/// A mouse does not have the object of a dock, though it has the dock's name.
pub proof fn lemma_mouse_and_dock_apart(device: UsbDeviceView, paired: PairedMouseView)
    requires
        paired.pid == RAZER_BASILISK_V3_PRO_35K_WIRELESS_PID,
    ensures
        mouse_path(paired) != dock_path(device),
{
    if mouse_path(paired) == dock_path(device) {
        lemma_device_path_injective(
            RAZER_VID,
            paired.pid,
            paired.sysname,
            RAZER_VID,
            RAZER_MOUSE_DOCK_PRO_PID,
            device.sysname,
        );
    }
}

proof fn lemma_regions_not_listed(
    objects: Seq<DeviceObject>,
    device: UsbDeviceView,
    regions: Seq<LightingRegion>,
)
    requires
        object_views(objects) == region_objects(device, regions),
    ensures
        object_paths(objects) == Seq::<Seq<char>>::empty(),
    decreases objects.len(),
{
    assert(object_views(objects).len() == region_objects(device, regions).len());
    if objects.len() > 0 {
        let last = objects.len() - 1;
        assert(object_views(objects)[last] == objects[last]@);
        assert(region_objects(device, regions).len() == regions.len());
        assert(region_objects(device, regions)[last].interfaces == seq![
            InterfaceName::LightingRegion,
        ]);
        assert(objects[last].interfaces@ == seq![InterfaceName::LightingRegion]);
        assert(!is_device_object(objects[last]));
        assert(object_views(objects.drop_last()) =~= object_views(objects).drop_last());
        assert(region_objects(device, regions.drop_last()) =~= region_objects(
            device,
            regions,
        ).drop_last());
        lemma_regions_not_listed(objects.drop_last(), device, regions.drop_last());
    }
}

/// Of all the objects of a dock only its own is listed as a device.
pub proof fn lemma_dock_listed_once(
    objects: Seq<DeviceObject>,
    device: UsbDeviceView,
    regions: Seq<LightingRegion>,
)
    requires
        object_views(objects) == dock_objects(device, regions),
    ensures
        object_paths(objects) == seq![dock_path(device)],
{
    let last = objects.len() - 1;
    assert(object_views(objects).len() == dock_objects(device, regions).len());
    assert(dock_objects(device, regions).len() == regions.len() + 1);
    assert(object_views(objects)[last] == objects[last]@);
    assert(object_views(objects)[last] == dock_objects(device, regions)[last]);
    assert(objects[last].interfaces@ =~= seq![InterfaceName::Device]);
    assert(objects[last].interfaces@[0] == InterfaceName::Device);
    assert(object_views(objects.drop_last()) =~= object_views(objects).drop_last());
    assert(region_objects(device, regions) =~= dock_objects(device, regions).drop_last());
    lemma_regions_not_listed(objects.drop_last(), device, regions);
    assert(object_paths(objects) =~= seq![dock_path(device)]);
}

/// A mouse is listed as a device.
pub proof fn lemma_mouse_listed_once(objects: Seq<DeviceObject>, paired: PairedMouseView)
    requires
        object_views(objects) == mouse_objects(paired),
    ensures
        object_paths(objects) == seq![mouse_path(paired)],
{
    assert(object_views(objects).len() == 1);
    assert(object_views(objects)[0] == objects[0]@);
    assert(object_views(objects)[0] == mouse_objects(paired)[0]);
    assert(objects[0].interfaces@[0] == InterfaceName::Mouse);
    assert(objects.drop_last() =~= Seq::empty());
    assert(is_device_object(objects.last()));
    assert(object_paths(objects.drop_last()) =~= Seq::empty());
    assert(object_paths(objects) =~= seq![mouse_path(paired)]);
}

/// The removal of a dock takes off the bus all that its setup put there: the object of each of its
/// regions, and its own.
pub proof fn lemma_dock_taken_off<T>(
    devices: Seq<Device<T>>,
    i: int,
    device: UsbDeviceView,
    regions: Seq<LightingRegion>,
)
    requires
        0 <= i < devices.len(),
        object_views(devices[i].objects@) == dock_objects(device, regions),
    ensures
        removal_steps(devices).contains(
            RemovalView::RemoveInterface {
                path: dock_path(device),
                interface: InterfaceName::Device,
            },
        ),
        forall|j: int|
            0 <= j < regions.len() ==> removal_steps(devices).contains(
                RemovalView::RemoveInterface {
                    path: region_object_path(
                        dock_path(device),
                        (#[trigger] regions[j]).region_id,
                    ),
                    interface: InterfaceName::LightingRegion,
                },
            ),
{
    let objects = devices[i].objects@;
    let all = dock_objects(device, regions);
    let last = regions.len() as int;
    assert(object_views(objects).len() == all.len() && all.len() == regions.len() + 1);
    assert(object_views(objects)[last] == objects[last]@ && all[last].path == dock_path(device));
    assert(objects[last].interfaces@[0] == InterfaceName::Device);
    lemma_interface_removed(devices, i, last, 0);
    assert forall|j: int| 0 <= j < regions.len() implies removal_steps(devices).contains(
        RemovalView::RemoveInterface {
            path: region_object_path(dock_path(device), (#[trigger] regions[j]).region_id),
            interface: InterfaceName::LightingRegion,
        },
    ) by {
        assert(object_views(objects)[j] == objects[j]@ && object_views(objects)[j] == all[j]);
        assert(all[j] == region_objects(device, regions)[j]);
        assert(objects[j].interfaces@[0] == InterfaceName::LightingRegion);
        lemma_interface_removed(devices, i, j, 0);
    }
}

/// The removal of a mouse takes its object off the bus as that of a mouse.
pub proof fn lemma_mouse_taken_off<T>(devices: Seq<Device<T>>, i: int, paired: PairedMouseView)
    requires
        0 <= i < devices.len(),
        object_views(devices[i].objects@) == mouse_objects(paired),
    ensures
        removal_steps(devices).contains(
            RemovalView::RemoveInterface {
                path: mouse_path(paired),
                interface: InterfaceName::Mouse,
            },
        ),
{
    let objects = devices[i].objects@;
    assert(object_views(objects).len() == 1);
    assert(object_views(objects)[0] == objects[0]@);
    assert(object_views(objects)[0] == mouse_objects(paired)[0]);
    assert(objects[0].interfaces@[0] == InterfaceName::Mouse);
    lemma_interface_removed(devices, i, 0, 0);
}

/// The path of a dock's object is the path of a device with the dock's ids and the whole name of
/// its USB device, so that two docks with different names have different objects.
pub proof fn lemma_dock_path_tells_dock(device: UsbDeviceView, other: UsbDeviceView)
    ensures
        dock_path(device) == device_object_path(0x1532, 0x00a4, device.sysname),
        dock_path(device) == dock_path(other) ==> device.sysname == other.sysname,
{
    if dock_path(device) == dock_path(other) {
        lemma_device_path_injective(
            0x1532,
            0x00a4,
            device.sysname,
            0x1532,
            0x00a4,
            other.sysname,
        );
    }
}

/// The path of a mouse's object is the path of a device with the mouse's product id and the whole
/// name of the dock's USB device, so that the mice of two docks have different objects.
pub proof fn lemma_mouse_path_tells_mouse(paired: PairedMouseView, other: PairedMouseView)
    ensures
        mouse_path(paired) == device_object_path(0x1532, paired.pid, paired.sysname),
        mouse_path(paired) == mouse_path(other) ==> paired.pid == other.pid && paired.sysname
            == other.sysname,
{
    if mouse_path(paired) == mouse_path(other) {
        lemma_device_path_injective(
            0x1532,
            paired.pid,
            paired.sysname,
            0x1532,
            other.pid,
            other.sysname,
        );
    }
}

/// The value of a paired mouse holds every byte of its name and of its node.
pub proof fn lemma_paired_mouse_value(paired: PairedMouse)
    ensures
        paired@.sysname == paired.sysname@,
        paired@.syspath == paired.syspath@,
        paired@.reader_devnode == paired.reader_devnode@,
        paired@.status == paired.status,
        paired@.pid == paired.pid,
{
}

/// The objects of a dock are those of its regions, one for each and in order, with the one
/// interface of a region, and then its own, with the one interface of a device.
pub proof fn lemma_dock_objects_decided(
    device: UsbDeviceView,
    regions: Seq<LightingRegion>,
    i: int,
)
    ensures
        dock_objects(device, regions).len() == regions.len() + 1,
        region_paths(device, regions).len() == regions.len(),
        0 <= i < regions.len() ==> {
            let object = dock_objects(device, regions)[i];
            &&& object.path == region_object_path(dock_path(device), regions[i].region_id)
            &&& object.interfaces.len() == 1
            &&& object.interfaces[0] == InterfaceName::LightingRegion
            &&& region_paths(device, regions)[i] == object.path
        },
        ({
            let object = dock_objects(device, regions).last();
            &&& object.path == dock_path(device)
            &&& object.interfaces.len() == 1
            &&& object.interfaces[0] == InterfaceName::Device
        }),
{
}

/// What follows once regions are on the bus: if one is left its brightness is asked for, and
/// otherwise the dock is put on the bus at its own path, with the paths of all of its regions in
/// order.
pub proof fn lemma_next_action_decided<T>(dock: DockView, action: DockAction<T>, i: int)
    requires
        is_next_action(dock, action),
    ensures
        dock.mounted < dock.regions.len() ==> action is Request && asks_dock(
            action->Request_0,
            0x0f,
            0x84,
            3,
            seq![0u8, dock.regions[dock.mounted as int].region_id],
        ),
        dock.mounted >= dock.regions.len() ==> (action matches DockAction::MountDevice {
            path,
            service,
        } && {
            &&& path@ == dock_path(dock.device)
            &&& service.name@ == "Mouse Dock Pro"@
            &&& service.device_type == DeviceType::Dock
            &&& service.lighting_regions@.len() == dock.regions.len()
            &&& 0 <= i < dock.regions.len() ==> service.lighting_regions@[i]@ == region_object_path(
                dock_path(dock.device),
                dock.regions[i].region_id,
            )
        }),
{
    if dock.mounted < dock.regions.len() {
        lemma_task_asks(
            action->Request_0,
            dock_device(),
            0x0f,
            0x84,
            3,
            seq![0u8, dock.regions[dock.mounted as int].region_id],
        );
    } else {
        let paths = action->MountDevice_service.lighting_regions@;
        let texts = path_texts(paths);
        assert(texts == region_paths(dock.device, dock.regions));
        assert(texts.len() == paths.len());
        assert(region_paths(dock.device, dock.regions).len() == dock.regions.len());
        if 0 <= i < dock.regions.len() {
            assert(texts[i] == paths[i]@);
        }
    }
}

/// Whether `task` asks the dock for a command, with `data` and then zeros.
pub open spec fn asks_dock(
    task: RequestTask,
    command_class: u8,
    command_id: u8,
    data_len: u8,
    data: Seq<u8>,
) -> bool {
    &&& task.base_transaction_id == 0xe0
    &&& task.request.command_class == command_class
    &&& task.request.command_id == command_id
    &&& task.request.data_len == data_len
    &&& forall|i: int| 0 <= i < data.len() ==> #[trigger] task.request.data@[i] == data[i]
    &&& forall|i: int| data.len() <= i < 80 ==> #[trigger] task.request.data@[i] == 0
}

/// The regions of a dock are those that its report describes, all of them and in order, and the
/// first of them is set up first, or the dock where there is none.
pub proof fn lemma_regions_taken_on<T>(
    before: DockView,
    report: Report,
    after: DockView,
    action: DockAction<T>,
    i: int,
)
    requires
        before.phase == DockPhase::Regions,
        is_report_step(before, report, after, action),
    ensures
        after.device == before.device,
        after.regions.len() == report.data_len / 5,
        0 <= i < after.regions.len() ==> {
            &&& after.regions[i].region_id == report.data@[5 * i]
            &&& after.regions[i].matrix_x == report.data@[5 * i + 3]
            &&& after.regions[i].matrix_y == report.data@[5 * i + 4]
        },
        after.mounted == 0,
        report.data_len >= 5 ==> after.phase == DockPhase::Brightness,
        report.data_len < 5 ==> after.phase == DockPhase::MountingDevice,
        is_next_action(after, action),
{
}

/// A region is asked for its brightness, for the effects that it can show and for the one that it
/// shows, and is then put on the bus at its own path, with the three answers and as the dock
/// described it.
pub proof fn lemma_region_set_up<T>(
    start: DockView,
    brightness: Report,
    second: DockView,
    first_action: DockAction<T>,
    effects: Report,
    third: DockView,
    second_action: DockAction<T>,
    effect: Report,
    end: DockView,
    last_action: DockAction<T>,
)
    requires
        start.phase == DockPhase::Brightness,
        start.mounted < start.regions.len(),
        1 <= effects.data_len <= 80,
        is_report_step(start, brightness, second, first_action),
        is_report_step(second, effects, third, second_action),
        is_report_step(third, effect, end, last_action),
    ensures
        ({
            let region = start.regions[start.mounted as int];
            &&& second.phase == DockPhase::Effects
            &&& first_action is Request
            &&& asks_dock(first_action->Request_0, 0x0f, 0x81, 80, seq![region.region_id])
            &&& third.phase == DockPhase::Effect
            &&& second_action is Request
            &&& asks_dock(second_action->Request_0, 0x0f, 0x82, 80, seq![0u8, region.region_id])
            &&& end.phase == DockPhase::MountingRegion
            &&& end.device == start.device
            &&& end.regions == start.regions
            &&& end.mounted == start.mounted
            &&& last_action matches DockAction::MountRegion { path, interface } && {
                &&& path@ == region_object_path(dock_path(start.device), region.region_id)
                &&& interface.device.base_transaction_id == 0xe0
                &&& interface.region == region
                &&& interface.brightness == brightness.data@[2]
                &&& interface.effects@.len() == effects.data_len - 1
                &&& forall|i: int|
                    0 <= i < interface.effects@.len() ==> #[trigger] interface.effects@[i]
                        == effects.data@[i + 1]
                &&& interface.effect == effect.data@[2]
            }
        }),
{
    let region = start.regions[start.mounted as int];
    lemma_task_asks(
        first_action->Request_0,
        dock_device(),
        0x0f,
        0x81,
        80,
        seq![region.region_id],
    );
    lemma_task_asks(
        second_action->Request_0,
        dock_device(),
        0x0f,
        0x82,
        80,
        seq![0u8, region.region_id],
    );
}

/// Once the node is open the regions are asked for; once a region is on the bus the next one
/// follows, or the dock; once the dock is on the bus it is registered for its own USB device, with
/// all of its objects and without tasks; and once it is registered the paired device is asked for.
pub proof fn lemma_completion_decided<T>(
    before: DockView,
    after: DockView,
    action: DockAction<T>,
    i: int,
)
    requires
        is_completion_step(before, after, action),
    ensures
        after.device == before.device,
        after.regions == before.regions,
        before.phase == DockPhase::Opening ==> {
            &&& after.phase == DockPhase::Regions
            &&& after.mounted == before.mounted
            &&& action is Request
            &&& asks_dock(action->Request_0, 0x0f, 0x80, 80, Seq::empty())
        },
        before.phase == DockPhase::MountingRegion ==> {
            &&& after.mounted == before.mounted + 1
            &&& after.mounted < after.regions.len() ==> after.phase == DockPhase::Brightness
            &&& after.mounted >= after.regions.len() ==> after.phase == DockPhase::MountingDevice
            &&& is_next_action(after, action)
        },
        before.phase == DockPhase::MountingDevice ==> {
            &&& after.phase == DockPhase::Registering
            &&& after.mounted == before.mounted
            &&& action matches DockAction::Register { syspath, device } && {
                &&& syspath@ == before.device.syspath
                &&& device.tasks@.len() == 0
                &&& device.objects@.len() == before.regions.len() + 1
                &&& 0 <= i < before.regions.len() ==> {
                    &&& device.objects@[i].path@ == region_object_path(
                        dock_path(before.device),
                        before.regions[i].region_id,
                    )
                    &&& device.objects@[i].interfaces@.len() == 1
                    &&& device.objects@[i].interfaces@[0] == InterfaceName::LightingRegion
                }
                &&& device.objects@.last().path@ == dock_path(before.device)
                &&& device.objects@.last().interfaces@.len() == 1
                &&& device.objects@.last().interfaces@[0] == InterfaceName::Device
            }
        },
        before.phase == DockPhase::Registering ==> {
            &&& after.phase == DockPhase::Pairing
            &&& after.mounted == before.mounted
            &&& action is Request
            &&& asks_dock(action->Request_0, 0x00, 0xbf, 80, Seq::empty())
        },
{
    if before.phase == DockPhase::Opening {
        lemma_task_asks(action->Request_0, dock_device(), 0x0f, 0x80, 80, Seq::empty());
    }
    if before.phase == DockPhase::Registering {
        lemma_task_asks(action->Request_0, dock_device(), 0x00, 0xbf, 80, Seq::empty());
    }
    if before.phase == DockPhase::MountingDevice {
        let objects = action->Register_device.objects@;
        let views = object_views(objects);
        let last = before.regions.len() as int;
        lemma_dock_objects_decided(before.device, before.regions, i);
        assert(views.len() == objects.len());
        assert(views[last] == objects[last]@);
        if 0 <= i < last {
            assert(views[i] == objects[i]@);
        }
    }
}

/// Where the dock answers that it has no paired device the setup is over; otherwise the paired
/// mouse is connected, by the name and the path of the dock, the node of the dock's second
/// interface, and the status and the product id of the answer, the high byte first.
pub proof fn lemma_pairing_decided<T>(
    before: DockView,
    report: Report,
    after: DockView,
    action: DockAction<T>,
)
    requires
        before.phase == DockPhase::Pairing,
        is_report_step(before, report, after, action),
    ensures
        after.phase == DockPhase::Finished,
        report.data@[2] == 0xff && report.data@[3] == 0xff ==> action is Finish,
        !(report.data@[2] == 0xff && report.data@[3] == 0xff) ==> (action
            matches DockAction::ConnectMouse(mouse) && {
            &&& mouse.sysname@ == before.device.sysname
            &&& mouse.syspath@ == before.device.syspath
            &&& mouse.reader_devnode@ == before.device.hid_interfaces[1]
            &&& mouse.status == report.data@[1]
            &&& mouse.pid / 256 == report.data@[2]
            &&& mouse.pid % 256 == report.data@[3]
        }),
{
    lemma_big_endian(report.data@[2], report.data@[3]);
}

/// A mouse is put on the bus as a device at its own path, and is registered with that one object
/// and the one interface of a mouse; it is asked with its own transaction bits, and until it has
/// been read it is not connected.
pub proof fn lemma_mouse_mounted<T>(paired: PairedMouseView, action: MouseAction<T>)
    requires
        is_mount_device(paired, action),
    ensures
        action matches MouseAction::MountDevice { path, service } && {
            &&& path@ == mouse_path(paired)
            &&& service.name@ == "Basilisk V3 Pro 35K"@
            &&& service.device_type == DeviceType::Mouse
            &&& service.lighting_regions@.len() == 0
        },
        mouse_objects(paired).len() == 1,
        mouse_objects(paired)[0].path == mouse_path(paired),
        mouse_objects(paired)[0].interfaces.len() == 1,
        mouse_objects(paired)[0].interfaces[0] == InterfaceName::Mouse,
        basilisk().device.base_transaction_id == 0xe0,
        !disconnected().is_connected,
        disconnected().battery_level == 0,
        !disconnected().is_charging,
        disconnected().dpi == 0,
{
}

} // verus!
