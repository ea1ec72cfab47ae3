use fang::dbus::{
    create_object_path, interface_name, DeviceManagerService, DeviceType,
    LightingRegionInterface, MouseState, RazerDeviceService, RazerMouseService,
};
use fang::driver::chroma::LightingRegion;
use fang::driver::devices::RazerDevice;
use fang::driver::protocol::Report;
use fang::manager::{Device, DeviceManager, DeviceObject, InterfaceName};
use fang::object_path::ObjectPath;
use fang::path::SysPath;

fn path(text: &str) -> SysPath {
    SysPath::new(text.as_bytes())
}

fn object(text: &str, interfaces: Vec<InterfaceName>) -> DeviceObject {
    DeviceObject { path: ObjectPath::new(text.to_owned()).unwrap(), interfaces }
}

fn device(objects: Vec<DeviceObject>) -> Device<u32> {
    Device { objects, tasks: vec![] }
}

fn listed(manager: &DeviceManager<u32>) -> Vec<String> {
    let service = DeviceManagerService { device_manager: manager };
    service.devices().iter().map(|path| path.as_str().to_owned()).collect()
}

fn region() -> LightingRegionInterface {
    LightingRegionInterface {
        device: RazerDevice { base_transaction_id: 0xe0 },
        region: LightingRegion { region_id: 5, matrix_x: 8, matrix_y: 2 },
        brightness: 10,
        effects: vec![1, 3],
        effect: 1,
    }
}

fn reply(data: &[u8]) -> Report {
    let mut bytes = [0u8; 91];
    bytes[9..9 + data.len()].copy_from_slice(data);
    Report::read_from_bytes(&bytes).unwrap()
}

#[test]
fn interface_names() {
    assert_eq!(interface_name(InterfaceName::DeviceManager), "dev.hasali.Fang.DeviceManager");
    assert_eq!(interface_name(InterfaceName::Device), "dev.hasali.Fang.Device");
    assert_eq!(interface_name(InterfaceName::Mouse), "dev.hasali.Fang.Mouse");
    assert_eq!(interface_name(InterfaceName::LightingRegion), "dev.hasali.Fang.LightingRegion");
}

#[test]
fn nothing_is_listed_at_first() {
    let mut manager = DeviceManager::<u32>::new();
    assert_eq!(manager.len(), 0);
    assert!(listed(&manager).is_empty());
    assert!(manager.remove_devices(&path("/sys/a")).is_empty());
}

#[test]
fn devices_are_listed_and_their_parts_are_not() {
    let mut manager = DeviceManager::new();
    manager.add_device(
        path("/sys/a"),
        device(vec![
            object("/dock/light1", vec![InterfaceName::LightingRegion]),
            object("/dock", vec![InterfaceName::Device]),
            object("/nothing", vec![]),
            object("/manager", vec![InterfaceName::DeviceManager]),
            object("/both", vec![InterfaceName::LightingRegion, InterfaceName::Mouse]),
        ]),
    );
    assert_eq!(listed(&manager), vec!["/dock", "/both"]);
}

#[test]
fn devices_are_listed_in_the_order_of_their_usb_devices() {
    let mut manager = DeviceManager::new();
    manager.add_device(path("/sys/b"), device(vec![object("/b1", vec![InterfaceName::Device])]));
    manager.add_device(path("/sys/a"), device(vec![object("/a1", vec![InterfaceName::Device])]));
    manager.add_device(path("/sys//b"), device(vec![object("/b2", vec![InterfaceName::Mouse])]));
    assert_eq!(manager.len(), 2);
    assert_eq!(manager.devices_at(1).len(), 2);
    assert_eq!(listed(&manager), vec!["/a1", "/b1", "/b2"]);
}

#[test]
fn devices_are_registered_until_they_are_removed() {
    let mut manager = DeviceManager::new();
    manager.add_device(path("/sys/a"), Device { objects: vec![], tasks: vec![1] });
    manager.add_device(path("/sys/b"), Device { objects: vec![], tasks: vec![2] });
    manager.add_device(path("/sys/a"), Device { objects: vec![], tasks: vec![3, 4] });
    let removed = manager.remove_devices(&path("/sys/a/"));
    let tasks: Vec<Vec<u32>> = removed.into_iter().map(|device| device.tasks).collect();
    assert_eq!(tasks, vec![vec![1], vec![3, 4]]);
    assert!(manager.remove_devices(&path("/sys/a")).is_empty());
    assert_eq!(manager.remove_devices(&path("/sys/b"))[0].tasks, vec![2]);
    assert_eq!(manager.len(), 0);
}

#[test]
fn removed_devices_are_not_listed() {
    let mut manager = DeviceManager::new();
    manager.add_device(path("/sys/a"), device(vec![object("/a", vec![InterfaceName::Device])]));
    manager.add_device(path("/sys/b"), device(vec![object("/b", vec![InterfaceName::Mouse])]));
    manager.remove_devices(&path("/sys/a"));
    assert_eq!(listed(&manager), vec!["/b"]);
}

#[test]
fn numbers_of_the_device_types() {
    assert_eq!(DeviceType::Dock.value(), 1);
    assert_eq!(DeviceType::Mouse.value(), 2);
}

#[test]
fn device_service() {
    let service = RazerDeviceService {
        name: "Mouse Dock Pro",
        device_type: DeviceType::Dock,
        lighting_regions: vec![create_object_path(1, 2, b"3").unwrap()],
    };
    assert_eq!(service.name(), "Mouse Dock Pro");
    assert_eq!(service.device_type(), DeviceType::Dock);
    assert_eq!(service.lighting_regions().len(), 1);
    assert_eq!(service.lighting_regions()[0].as_str(), "/dev/hasali/Fang/1_2_33");
}

#[test]
fn mouse_service() {
    let state =
        MouseState { is_connected: true, battery_level: 42, is_charging: true, dpi: 1600 };
    let service = RazerMouseService { state };
    assert!(service.is_connected());
    assert!(service.has_battery());
    assert_eq!(service.battery_level(), 42);
    assert!(service.is_charging());
    assert_eq!(service.dpi(), 1600);
    let service = RazerMouseService { state: MouseState::default() };
    assert!(!service.is_connected());
    assert!(service.has_battery());
    assert_eq!(service.battery_level(), 0);
    assert!(!service.is_charging());
    assert_eq!(service.dpi(), 0);
}

#[test]
fn region_properties() {
    let region = region();
    assert_eq!(region.region_id(), 5);
    assert_eq!(region.matrix_x(), 8);
    assert_eq!(region.matrix_y(), 2);
    assert_eq!(*region.effects(), vec![1, 3]);
    assert_eq!(region.brightness(), 10);
    assert_eq!(region.effect(), 1);
}

#[test]
fn brightness_changes_if_the_device_agrees() {
    let mut region = region();
    let task = region.set_brightness_request(200);
    assert_eq!(task.base_transaction_id, 0xe0);
    assert_eq!((task.request.command_class, task.request.command_id), (0x0f, 0x04));
    assert_eq!(task.request.data_len, 3);
    assert_eq!(task.request.data[..4], [0, 5, 200, 0]);
    assert_eq!(region.brightness(), 10);
    assert_eq!(region.set_brightness(200, Err("no")), Err("no"));
    assert_eq!(region.brightness(), 10);
    assert_eq!(region.set_brightness::<&str>(200, Ok(reply(&[0, 5, 7]))), Ok(()));
    assert_eq!(region.brightness(), 200);
    assert_eq!(region.effect(), 1);
}

#[test]
fn shown_effect_stays() {
    let mut region = region();
    let task = region.set_effect_request(3);
    assert_eq!(task.base_transaction_id, 0xe0);
    assert_eq!((task.request.command_class, task.request.command_id), (0x0f, 0x02));
    assert_eq!(task.request.data_len, 80);
    assert_eq!(task.request.data[..4], [0, 5, 3, 0]);
    assert_eq!(region.set_effect(Err("no")), Err("no"));
    assert_eq!(region.set_effect::<&str>(Ok(reply(&[0, 5, 3]))), Ok(()));
    assert_eq!(region.effect(), 1);
    assert_eq!(region.brightness(), 10);
}
