use std::collections::BTreeMap;

use fang::dbus::{DeviceManagerService, DeviceType, MouseState};
use fang::driver::chroma::LightingRegion;
use fang::driver::protocol::{Report, RequestTask};
use fang::manager::{Device, DeviceManager, DeviceObject, InterfaceName};
use fang::monitor::mouse::MouseReading;
use fang::monitor::setup::{
    DockAction, DockPhase, DockSetup, MouseAction, MousePhase, MouseSetup, PairedMouse,
};
use fang::monitor::{
    handle_device_removed, handle_udev_event, razer_monitor, RemovalStep, UdevAction,
    POLL_INTERVAL_SECS, RAZER_BASILISK_V3_PRO_35K_WIRELESS_BASE_TXN_ID,
    RAZER_BASILISK_V3_PRO_35K_WIRELESS_PID, RAZER_MOUSE_DOCK_PRO_PID, RAZER_VID,
};
use fang::object_path::ObjectPath;
use fang::path::{Order, SysPath};
use fang::udev::usb::{UsbDeviceEvent, UsbDeviceInfo};
use fang::udev::{DeviceAction, UdevDevice, UdevEvent, UsbDevice, UsbInterface};

const DOCK: &str = "/dev/hasali/Fang/5426_164_312d34";
const MOUSE: &str = "/dev/hasali/Fang/5426_205_312d34";

fn path(text: &str) -> SysPath {
    SysPath::new(text.as_bytes())
}

fn dock_device() -> UsbDeviceInfo {
    UsbDeviceInfo {
        sysname: b"1-4".to_vec(),
        syspath: path("/sys/1-4"),
        product_id: 0xa4,
        hid_interfaces: BTreeMap::from([
            (0, b"/dev/hidraw0".to_vec()),
            (1, b"/dev/hidraw1".to_vec()),
        ]),
    }
}

fn report(data_len: u8, data: &[u8]) -> Report {
    let mut bytes = [0u8; 91];
    bytes[6] = data_len;
    bytes[9..9 + data.len()].copy_from_slice(data);
    Report::read_from_bytes(&bytes).unwrap()
}

fn paired(status: u8, pid: u16) -> PairedMouse {
    PairedMouse {
        sysname: b"1-4".to_vec(),
        syspath: path("/sys/1-4"),
        reader_devnode: b"/dev/hidraw1".to_vec(),
        status,
        pid,
    }
}

fn assert_request(task: RequestTask, class: u8, id: u8, data_len: u8, data: &[u8]) {
    let mut expected = [0u8; 80];
    expected[..data.len()].copy_from_slice(data);
    assert_eq!(task.base_transaction_id, 0xe0);
    assert_eq!(task.request.command_class, class);
    assert_eq!(task.request.command_id, id);
    assert_eq!(task.request.data_len, data_len);
    assert_eq!(task.request.data, expected);
}

fn assert_dock_request(action: DockAction<u32>, class: u8, id: u8, data_len: u8, data: &[u8]) {
    match action {
        DockAction::Request(task) => assert_request(task, class, id, data_len, data),
        _ => panic!("a request was expected"),
    }
}

fn assert_mouse_request(action: MouseAction<u32>, class: u8, id: u8, data_len: u8) {
    match action {
        MouseAction::Request(task) => assert_request(task, class, id, data_len, &[]),
        _ => panic!("a request was expected"),
    }
}

fn asked_for_regions() -> DockSetup {
    let (setup, action) = DockSetup::start::<u32>(dock_device());
    match action {
        DockAction::Open { devnode } => assert_eq!(devnode, b"/dev/hidraw0"),
        _ => panic!("the device node was to be opened"),
    }
    assert_eq!(setup.phase(), DockPhase::Opening);
    let (setup, action) = setup.on_done();
    assert_dock_request(action, 0x0f, 0x80, 80, &[]);
    assert_eq!(setup.phase(), DockPhase::Regions);
    setup
}

fn set_up_region(
    setup: DockSetup,
    region: LightingRegion,
    brightness: u8,
    effects: &[u8],
    effect: u8,
) -> (DockSetup, DockAction<u32>) {
    let id = region.region_id;
    assert_eq!(setup.phase(), DockPhase::Brightness);
    let (setup, action) = setup.on_report(&report(3, &[0, id, brightness]));
    assert_dock_request(action, 0x0f, 0x81, 80, &[id]);
    assert_eq!(setup.phase(), DockPhase::Effects);
    let mut available = vec![id];
    available.extend_from_slice(effects);
    let (setup, action) = setup.on_report(&report(available.len() as u8, &available));
    assert_dock_request(action, 0x0f, 0x82, 80, &[0, id]);
    assert_eq!(setup.phase(), DockPhase::Effect);
    let (setup, action) = setup.on_report::<u32>(&report(80, &[0, id, effect]));
    match action {
        DockAction::MountRegion { path, interface } => {
            assert_eq!(path.as_str(), format!("{DOCK}/light{id}"));
            assert_eq!(interface.device.base_transaction_id, 0xe0);
            assert_eq!(interface.region, region);
            assert_eq!(interface.brightness, brightness);
            assert_eq!(interface.effects, effects);
            assert_eq!(interface.effect, effect);
        }
        _ => panic!("the region was to be mounted"),
    }
    assert_eq!(setup.phase(), DockPhase::MountingRegion);
    setup.on_done()
}

fn mount_and_register(
    setup: DockSetup,
    action: DockAction<u32>,
    regions: &[&str],
) -> (DockSetup, Device<u32>) {
    assert_eq!(setup.phase(), DockPhase::MountingDevice);
    match action {
        DockAction::MountDevice { path, service } => {
            assert_eq!(path.as_str(), DOCK);
            assert_eq!(service.name, "Mouse Dock Pro");
            assert_eq!(service.device_type, DeviceType::Dock);
            let paths: Vec<&str> =
                service.lighting_regions.iter().map(|path| path.as_str()).collect();
            assert_eq!(paths, regions);
        }
        _ => panic!("the dock was to be mounted"),
    }
    let (setup, action) = setup.on_done();
    assert_eq!(setup.phase(), DockPhase::Registering);
    match action {
        DockAction::Register { syspath, device } => {
            assert_eq!(syspath.compare(&path("/sys/1-4")), Order::Equal);
            assert!(device.tasks.is_empty());
            (setup, device)
        }
        _ => panic!("the dock was to be registered"),
    }
}

fn assert_objects(device: &Device<u32>, expected: &[(&str, InterfaceName)]) {
    let objects: Vec<(&str, Vec<InterfaceName>)> =
        device.objects.iter().map(|o| (o.path.as_str(), o.interfaces.clone())).collect();
    let expected: Vec<(&str, Vec<InterfaceName>)> =
        expected.iter().map(|(path, interface)| (*path, vec![*interface])).collect();
    assert_eq!(objects, expected);
}

fn registered_dock() -> (DockSetup, Device<u32>) {
    let setup = asked_for_regions();
    let data = [1, 0, 0, 8, 2, 4, 0, 0, 16, 1];
    let (setup, action) = setup.on_report(&report(10, &data));
    assert_dock_request(action, 0x0f, 0x84, 3, &[0, 1]);
    let first = LightingRegion { region_id: 1, matrix_x: 8, matrix_y: 2 };
    let (setup, action) = set_up_region(setup, first, 100, &[1, 3], 3);
    assert_dock_request(action, 0x0f, 0x84, 3, &[0, 4]);
    let second = LightingRegion { region_id: 4, matrix_x: 16, matrix_y: 1 };
    let (setup, action) = set_up_region(setup, second, 0, &[], 0);
    let regions = [format!("{DOCK}/light1"), format!("{DOCK}/light4")];
    mount_and_register(setup, action, &[&regions[0], &regions[1]])
}

fn registered_mouse(tasks: Vec<u32>) -> Device<u32> {
    let (setup, _) = MouseSetup::start::<u32>(paired(0, 0xcd)).unwrap();
    let (setup, _) = setup.on_done::<u32>();
    let (setup, _) = setup.on_done::<u32>();
    match setup.on_started(tasks).1 {
        MouseAction::Register { device, .. } => device,
        _ => panic!("the mouse was to be registered"),
    }
}

fn describe(steps: Vec<RemovalStep<u32>>) -> Vec<String> {
    steps
        .into_iter()
        .map(|step| match step {
            RemovalStep::RemoveInterface { path, interface } => {
                format!("remove {interface:?} {}", path.as_str())
            }
            RemovalStep::NotifyDevicesChanged => "notify".to_owned(),
            RemovalStep::AbortTask(task) => format!("abort {task}"),
        })
        .collect()
}

#[test]
fn driven_products() {
    assert_eq!(RAZER_VID, 0x1532);
    assert_eq!(RAZER_MOUSE_DOCK_PRO_PID, 0x00a4);
    assert_eq!(RAZER_BASILISK_V3_PRO_35K_WIRELESS_PID, 0xcd);
    assert_eq!(RAZER_BASILISK_V3_PRO_35K_WIRELESS_BASE_TXN_ID, 0xe0);
    assert_eq!(POLL_INTERVAL_SECS, 150);
}

#[test]
fn monitor_adds_docks_with_both_interfaces() {
    let device = |interface: &str| UdevDevice {
        syspath: path(&format!("/sys/1-4/hidraw{interface}")),
        devnode: Some(format!("/dev/hidraw{interface}").into_bytes()),
        usb_interface: Some(UsbInterface { number: Some(interface.to_owned()) }),
        usb_device: Some(UsbDevice {
            sysname: b"1-4".to_vec(),
            syspath: path("/sys/1-4"),
            product: None,
            id_vendor: Some("1532".to_owned()),
            id_product: Some("00a4".to_owned()),
        }),
    };
    let mut monitor = razer_monitor();
    assert!(monitor.handle_event(UdevEvent::Add(device("0"))).is_none());
    let event = monitor.handle_event(UdevEvent::Add(device("1"))).unwrap();
    match handle_udev_event(event) {
        UdevAction::ConnectDock(device) => {
            assert_eq!(device.product_id, 0xa4);
            assert!(device.hid_interfaces.contains_key(&0));
            assert!(device.hid_interfaces.contains_key(&1));
        }
        _ => panic!("a dock was to be connected"),
    }
}

#[test]
fn actions_for_usb_events() {
    let added = UsbDeviceEvent { action: DeviceAction::Add, device: dock_device() };
    assert!(matches!(handle_udev_event(added), UdevAction::ConnectDock(_)));
    let other = UsbDeviceInfo { product_id: 0xa5, ..dock_device() };
    let added = UsbDeviceEvent { action: DeviceAction::Add, device: other };
    assert!(matches!(handle_udev_event(added), UdevAction::Ignore));
    let other = UsbDeviceInfo { product_id: 0xa5, ..dock_device() };
    let removed = UsbDeviceEvent { action: DeviceAction::Remove, device: other };
    match handle_udev_event(removed) {
        UdevAction::RemoveDevice(device) => assert_eq!(device.product_id, 0xa5),
        _ => panic!("the device was to be removed"),
    }
}

#[test]
fn dock_with_two_regions_is_registered_with_all_of_its_objects() {
    let (_, device) = registered_dock();
    assert_objects(
        &device,
        &[
            (&format!("{DOCK}/light1"), InterfaceName::LightingRegion),
            (&format!("{DOCK}/light4"), InterfaceName::LightingRegion),
            (DOCK, InterfaceName::Device),
        ],
    );
}

#[test]
fn dock_without_regions() {
    let (setup, action) = asked_for_regions().on_report(&report(4, &[1, 2, 3, 4]));
    let (_, device) = mount_and_register(setup, action, &[]);
    assert_objects(&device, &[(DOCK, InterfaceName::Device)]);
}

#[test]
fn dock_without_a_paired_mouse_is_finished() {
    let (setup, _) = registered_dock();
    let (setup, action) = setup.on_done();
    assert_dock_request(action, 0x00, 0xbf, 80, &[]);
    assert_eq!(setup.phase(), DockPhase::Pairing);
    let (setup, action) = setup.on_report::<u32>(&report(80, &[0, 1, 0xff, 0xff]));
    assert!(matches!(action, DockAction::Finish));
    assert_eq!(setup.phase(), DockPhase::Finished);
}

#[test]
fn paired_mouse_is_connected() {
    let (setup, _) = registered_dock();
    let (setup, _) = setup.on_done::<u32>();
    let (setup, action) = setup.on_report::<u32>(&report(80, &[0, 1, 0x00, 0xcd]));
    assert_eq!(setup.phase(), DockPhase::Finished);
    match action {
        DockAction::ConnectMouse(mouse) => {
            assert_eq!(mouse.sysname, b"1-4");
            assert_eq!(mouse.syspath.compare(&path("/sys/1-4")), Order::Equal);
            assert_eq!(mouse.reader_devnode, b"/dev/hidraw1");
            assert_eq!(mouse.status, 1);
            assert_eq!(mouse.pid, 0xcd);
        }
        _ => panic!("the mouse was to be connected"),
    }
}

#[test]
fn setup_of_a_dock_ends() {
    let mut data = [0u8; 80];
    for i in 0..16 {
        data[5 * i] = i as u8;
    }
    let (mut setup, mut action) = asked_for_regions().on_report(&report(84, &data));
    let mut steps = 0;
    for i in 0..16 {
        assert_dock_request(action, 0x0f, 0x84, 3, &[0, i]);
        let region = LightingRegion { region_id: i, matrix_x: 0, matrix_y: 0 };
        (setup, action) = set_up_region(setup, region, i, &[i], i);
        steps += 4;
    }
    assert_eq!(steps, 64);
    assert!(matches!(action, DockAction::MountDevice { .. }));
    assert_eq!(setup.phase(), DockPhase::MountingDevice);
}

#[test]
fn other_mice_are_left_alone() {
    assert!(MouseSetup::start::<u32>(paired(1, 0xcc)).is_none());
    assert!(MouseSetup::start::<u32>(paired(0, 0xce)).is_none());
}

#[test]
fn connected_mouse_is_read_first() {
    let (setup, action) = MouseSetup::start(paired(1, 0xcd)).unwrap();
    assert_eq!(setup.phase(), MousePhase::Reading(MouseReading::Battery));
    assert_mouse_request(action, 0x07, 0x80, 2);
    let (setup, action) = setup.on_report(&report(2, &[0, 128]));
    assert_mouse_request(action, 0x07, 0x84, 2);
    let (setup, action) = setup.on_report(&report(2, &[0, 1]));
    assert_mouse_request(action, 0x04, 0x85, 7);
    let (setup, action) = setup.on_report::<u32>(&report(7, &[0, 0x06, 0x40]));
    assert_eq!(setup.phase(), MousePhase::MountingDevice);
    match action {
        MouseAction::MountDevice { path, service } => {
            assert_eq!(path.as_str(), MOUSE);
            assert_eq!(service.name, "Basilisk V3 Pro 35K");
            assert_eq!(service.device_type, DeviceType::Mouse);
            assert!(service.lighting_regions.is_empty());
        }
        _ => panic!("the mouse was to be mounted as a device"),
    }
    let (setup, action) = setup.on_done::<u32>();
    assert_eq!(setup.phase(), MousePhase::MountingMouse);
    match action {
        MouseAction::MountMouse { path, mouse_service } => {
            assert_eq!(path.as_str(), MOUSE);
            assert_eq!(
                mouse_service.state,
                MouseState { is_connected: true, battery_level: 50, is_charging: true, dpi: 1600 }
            );
        }
        _ => panic!("the mouse was to be mounted as a mouse"),
    }
    let (setup, action) = setup.on_done::<u32>();
    assert_eq!(setup.phase(), MousePhase::Starting);
    match action {
        MouseAction::StartTasks { path, reader_devnode, mouse } => {
            assert_eq!(path.as_str(), MOUSE);
            assert_eq!(reader_devnode, b"/dev/hidraw1");
            assert_eq!(mouse.device.base_transaction_id, 0xe0);
        }
        _ => panic!("the tasks were to be started"),
    }
    let (setup, action) = setup.on_started(vec![7, 8]);
    assert_eq!(setup.phase(), MousePhase::Registering);
    match action {
        MouseAction::Register { syspath, device } => {
            assert_eq!(syspath.compare(&path("/sys/1-4")), Order::Equal);
            assert_objects(&device, &[(MOUSE, InterfaceName::Mouse)]);
            assert_eq!(device.tasks, vec![7, 8]);
        }
        _ => panic!("the mouse was to be registered"),
    }
    let (setup, action) = setup.on_done::<u32>();
    assert_eq!(setup.phase(), MousePhase::Finished);
    assert!(matches!(action, MouseAction::Finish));
}

#[test]
fn mouse_that_is_not_connected_is_not_read() {
    for status in [0, 2, 255] {
        let (setup, action) = MouseSetup::start::<u32>(paired(status, 0xcd)).unwrap();
        assert_eq!(setup.phase(), MousePhase::MountingDevice);
        assert!(matches!(action, MouseAction::MountDevice { .. }));
        match setup.on_done::<u32>().1 {
            MouseAction::MountMouse { mouse_service, .. } => {
                assert_eq!(mouse_service.state, MouseState::default());
            }
            _ => panic!("the mouse was to be mounted as a mouse"),
        }
    }
}

#[test]
fn dock_and_mouse_are_listed_once_each() {
    let mut manager = DeviceManager::new();
    manager.add_device(path("/sys/1-4"), registered_dock().1);
    manager.add_device(path("/sys/1-4"), registered_mouse(vec![]));
    let service = DeviceManagerService { device_manager: &manager };
    let paths = service.devices();
    assert_eq!(paths.len(), 2);
    assert_eq!(paths[0].as_str(), DOCK);
    assert_eq!(paths[1].as_str(), MOUSE);
    assert_ne!(DOCK, MOUSE);
}

#[test]
fn removal_takes_off_what_was_set_up() {
    let mut manager = DeviceManager::new();
    manager.add_device(path("/sys/1-4"), registered_dock().1);
    manager.add_device(path("/sys/1-4"), registered_mouse(vec![7, 8]));
    let steps = handle_device_removed(&mut manager, &path("/sys/1-4"));
    assert_eq!(
        describe(steps),
        vec![
            format!("remove LightingRegion {DOCK}/light1"),
            "notify".to_owned(),
            format!("remove LightingRegion {DOCK}/light4"),
            "notify".to_owned(),
            format!("remove Device {DOCK}"),
            "notify".to_owned(),
            format!("remove Mouse {MOUSE}"),
            "notify".to_owned(),
            "abort 7".to_owned(),
            "abort 8".to_owned(),
        ]
    );
    assert_eq!(manager.len(), 0);
    assert!(handle_device_removed(&mut manager, &path("/sys/1-4")).is_empty());
}

#[test]
fn removal_leaves_other_usb_devices() {
    let object = |text: &str| DeviceObject {
        path: ObjectPath::new(text.to_owned()).unwrap(),
        interfaces: vec![InterfaceName::Device, InterfaceName::Mouse],
    };
    let mut manager = DeviceManager::new();
    manager.add_device(path("/sys/a"), Device { objects: vec![object("/a")], tasks: vec![1] });
    manager.add_device(path("/sys/b"), Device { objects: vec![object("/b")], tasks: vec![2] });
    assert!(handle_device_removed(&mut manager, &path("/sys/c")).is_empty());
    let steps = handle_device_removed(&mut manager, &path("/sys/b"));
    assert_eq!(
        describe(steps),
        vec!["remove Device /b", "remove Mouse /b", "notify", "abort 2"]
    );
    assert_eq!(manager.len(), 1);
    assert_eq!(manager.devices_at(0)[0].tasks, vec![1]);
}
