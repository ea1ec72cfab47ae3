use fang::path::{Order, SysPath};
use fang::udev::usb::{UsbDeviceEvent, UsbMonitor};
use fang::udev::{
    parse_attrs, DeviceAction, DeviceEvent, DeviceInfo, DeviceMonitor, UdevDevice, UdevEvent,
    UsbDevice, UsbInterface,
};

fn path(text: &str) -> SysPath {
    SysPath::new(text.as_bytes())
}

fn text(value: &str) -> Option<String> {
    Some(value.to_owned())
}

fn usb_device(usb: &str, vendor: Option<String>, product: Option<String>) -> UsbDevice {
    UsbDevice {
        sysname: usb.as_bytes().to_vec(),
        syspath: path(&format!("/sys/{usb}")),
        product: text("Dock"),
        id_vendor: vendor,
        id_product: product,
    }
}

fn device(usb: &str, interface: &str, pid: &str) -> UdevDevice {
    UdevDevice {
        syspath: path(&format!("/sys/{usb}/hidraw{interface}")),
        devnode: Some(format!("/dev/{usb}/{interface}").into_bytes()),
        usb_interface: Some(UsbInterface { number: text(interface) }),
        usb_device: Some(usb_device(usb, text("1532"), text(pid))),
    }
}

fn dock(usb: &str, interface: &str) -> UdevDevice {
    device(usb, interface, "00a4")
}

fn removal(usb: &str, interface: &str) -> UdevEvent {
    UdevEvent::Remove(path(&format!("/sys/{usb}/hidraw{interface}")))
}

fn addition(usb: &str, interface: &str) -> UdevEvent {
    UdevEvent::Add(dock(usb, interface))
}

fn same(a: &SysPath, b: &SysPath) -> bool {
    a.compare(b) == Order::Equal
}

fn assert_event(event: Option<DeviceEvent>, action: DeviceAction, usb: &str, interface: u8) {
    let event = event.unwrap();
    assert_eq!(event.action, action);
    assert!(same(&event.device.hidraw_syspath, &path(&format!("/sys/{usb}/hidraw{interface}"))));
    assert!(same(&event.device.usb_device_syspath, &path(&format!("/sys/{usb}"))));
    assert_eq!(event.device.usb_device_sysname, usb.as_bytes());
    assert_eq!(event.device.devnode, format!("/dev/{usb}/{interface}").into_bytes());
    assert_eq!(event.device.product_id, 0xa4);
    assert_eq!(event.device.interface_number, interface);
}

fn assert_added(event: Option<UsbDeviceEvent>, usb: &str, interfaces: &[u8]) {
    let event = event.unwrap();
    assert_eq!(event.action, DeviceAction::Add);
    assert!(same(&event.device.syspath, &path(&format!("/sys/{usb}"))));
    assert_eq!(event.device.sysname, usb.as_bytes());
    assert_eq!(event.device.product_id, 0xa4);
    let nodes: Vec<(u8, Vec<u8>)> = event.device.hid_interfaces.into_iter().collect();
    let expected: Vec<(u8, Vec<u8>)> =
        interfaces.iter().map(|i| (*i, format!("/dev/{usb}/{i}").into_bytes())).collect();
    assert_eq!(nodes, expected);
}

fn assert_removed(event: Option<UsbDeviceEvent>, usb: &str) {
    let event = event.unwrap();
    assert_eq!(event.action, DeviceAction::Remove);
    assert!(same(&event.device.syspath, &path(&format!("/sys/{usb}"))));
    assert_eq!(event.device.sysname, usb.as_bytes());
    assert_eq!(event.device.product_id, 0xa4);
    assert!(event.device.hid_interfaces.is_empty());
}

fn dock_monitor() -> UsbMonitor {
    UsbMonitor::new(0x1532).with_product(0xa4, vec![0, 1])
}

#[test]
fn attributes_are_numbers_in_base_sixteen() {
    let attrs = |vendor: Option<String>, product: Option<String>| {
        parse_attrs(&usb_device("1-4", vendor, product)).map(|(vid, pid, _)| (vid, pid))
    };
    assert_eq!(attrs(text("1532"), text("00a4")), Some((0x1532, 0xa4)));
    assert_eq!(attrs(text("fFfF"), text("0")), Some((0xffff, 0)));
    assert_eq!(attrs(text("+1f"), text("00000A4")), Some((0x1f, 0xa4)));
    for wrong in ["", "+", "-1", "0x15", "15 ", "10000", "g", "++1", "\u{661}"] {
        assert_eq!(attrs(text(wrong), text("a4")), None, "{wrong:?}");
        assert_eq!(attrs(text("1532"), text(wrong)), None, "{wrong:?}");
    }
    assert_eq!(attrs(None, text("a4")), None);
    assert_eq!(attrs(text("1532"), None), None);
}

#[test]
fn product_name_is_handed_on() {
    let named = usb_device("1-4", text("1"), text("2"));
    assert_eq!(parse_attrs(&named), Some((1, 2, Some(&"Dock".to_owned()))));
    let unnamed = UsbDevice { product: None, ..usb_device("1-4", text("1"), text("2")) };
    assert_eq!(parse_attrs(&unnamed), Some((1, 2, None)));
}

#[test]
fn what_is_kept_of_a_device() {
    let info = DeviceInfo::from_udev(dock("1-4", "1"), 0x1532).unwrap();
    assert!(same(&info.hidraw_syspath, &path("/sys/1-4/hidraw1")));
    assert!(same(&info.usb_device_syspath, &path("/sys/1-4")));
    assert_eq!(info.usb_device_sysname, b"1-4");
    assert_eq!(info.devnode, b"/dev/1-4/1");
    assert_eq!(info.product_id, 0xa4);
    assert_eq!(info.interface_number, 1);
    let copy = info.duplicate();
    assert!(same(&copy.hidraw_syspath, &info.hidraw_syspath));
    assert_eq!(copy.devnode, info.devnode);
    assert_eq!(copy.product_id, 0xa4);
}

#[test]
fn devices_of_which_nothing_is_kept() {
    assert!(DeviceInfo::from_udev(dock("1-4", "0"), 0x1533).is_none());
    let no_node = UdevDevice { devnode: None, ..dock("1-4", "0") };
    assert!(DeviceInfo::from_udev(no_node, 0x1532).is_none());
    let no_interface = UdevDevice { usb_interface: None, ..dock("1-4", "0") };
    assert!(DeviceInfo::from_udev(no_interface, 0x1532).is_none());
    let no_device = UdevDevice { usb_device: None, ..dock("1-4", "0") };
    assert!(DeviceInfo::from_udev(no_device, 0x1532).is_none());
    assert!(DeviceInfo::from_udev(device("1-4", "0", "what"), 0x1532).is_none());
}

#[test]
fn interface_numbers() {
    let number = |number: Option<String>| {
        let device =
            UdevDevice { usb_interface: Some(UsbInterface { number }), ..dock("1-4", "0") };
        DeviceInfo::from_udev(device, 0x1532).unwrap().interface_number
    };
    assert_eq!(number(text("01")), 1);
    assert_eq!(number(text("1f")), 31);
    assert_eq!(number(text("+fF")), 255);
    assert_eq!(number(text("100")), 0);
    assert_eq!(number(text("")), 0);
    assert_eq!(number(text("one")), 0);
    assert_eq!(number(None), 0);
}

#[test]
fn device_is_removed_as_it_was_added() {
    let mut monitor = DeviceMonitor::new(0x1532);
    assert_event(monitor.handle_event(addition("1-4", "1")), DeviceAction::Add, "1-4", 1);
    assert_event(monitor.handle_event(removal("1-4", "1")), DeviceAction::Remove, "1-4", 1);
    assert!(monitor.handle_event(removal("1-4", "1")).is_none());
}

#[test]
fn removal_leaves_other_devices() {
    let mut monitor = DeviceMonitor::new(0x1532);
    monitor.handle_event(addition("1-4", "0"));
    monitor.handle_event(addition("1-4", "1"));
    assert_event(monitor.handle_event(removal("1-4", "0")), DeviceAction::Remove, "1-4", 0);
    assert_event(monitor.handle_event(removal("1-4", "1")), DeviceAction::Remove, "1-4", 1);
}

#[test]
fn events_that_mean_nothing() {
    let mut monitor = DeviceMonitor::new(0x1532);
    assert!(monitor.handle_event(UdevEvent::Other).is_none());
    assert!(monitor.handle_event(removal("1-4", "0")).is_none());
    let mut other_vendor = DeviceMonitor::new(0x046d);
    assert!(other_vendor.handle_event(addition("1-4", "0")).is_none());
    assert!(other_vendor.handle_event(removal("1-4", "0")).is_none());
}

#[test]
fn scan_adds_each_device_once() {
    let mut monitor = DeviceMonitor::new(0x1532);
    let foreign = UdevDevice {
        usb_device: Some(usb_device("1-5", text("046d"), text("a4"))),
        ..dock("1-5", "0")
    };
    let found = vec![dock("1-4", "0"), dock("1-4", "1"), foreign, dock("1-4", "0")];
    let events = monitor.scan(found);
    assert_eq!(events.len(), 2);
    let mut numbers: Vec<u8> = Vec::new();
    for event in events {
        assert_eq!(event.action, DeviceAction::Add);
        numbers.push(event.device.interface_number);
    }
    numbers.sort();
    assert_eq!(numbers, vec![0, 1]);
    assert_event(monitor.handle_event(removal("1-4", "1")), DeviceAction::Remove, "1-4", 1);
}

#[test]
fn usb_device_is_added_once_it_is_complete() {
    let mut monitor = dock_monitor();
    assert!(monitor.handle_event(addition("1-4", "1")).is_none());
    assert_added(monitor.handle_event(addition("1-4", "0")), "1-4", &[0, 1]);
    assert!(monitor.handle_event(addition("1-4", "0")).is_none());
    assert!(monitor.handle_event(addition("1-4", "1")).is_none());
}

#[test]
fn interfaces_that_are_not_needed_are_ignored() {
    let mut monitor = dock_monitor();
    assert!(monitor.handle_event(addition("1-4", "2")).is_none());
    assert!(monitor.handle_event(removal("1-4", "2")).is_none());
    assert!(monitor.handle_event(UdevEvent::Add(device("1-4", "0", "a5"))).is_none());
    assert!(monitor.handle_event(UdevEvent::Add(device("1-4", "1", "a5"))).is_none());
    assert!(monitor.handle_event(removal("1-4", "1")).is_none());
}

#[test]
fn usb_devices_do_not_mix() {
    let mut monitor = dock_monitor();
    assert!(monitor.handle_event(addition("1-4", "0")).is_none());
    assert!(monitor.handle_event(addition("1-5", "1")).is_none());
    assert_added(monitor.handle_event(addition("1-5", "0")), "1-5", &[0, 1]);
    assert_removed(monitor.handle_event(removal("1-5", "0")), "1-5");
    assert_added(monitor.handle_event(addition("1-4", "1")), "1-4", &[0, 1]);
}

#[test]
fn each_interface_that_goes_is_a_removal() {
    let mut monitor = dock_monitor();
    monitor.handle_event(addition("1-4", "0"));
    assert_added(monitor.handle_event(addition("1-4", "1")), "1-4", &[0, 1]);
    assert_removed(monitor.handle_event(removal("1-4", "0")), "1-4");
    assert_removed(monitor.handle_event(removal("1-4", "1")), "1-4");
    assert!(monitor.handle_event(removal("1-4", "1")).is_none());
}

#[test]
fn removal_lies_between_two_additions() {
    let mut monitor = dock_monitor();
    monitor.handle_event(addition("1-4", "0"));
    assert_added(monitor.handle_event(addition("1-4", "1")), "1-4", &[0, 1]);
    assert_removed(monitor.handle_event(removal("1-4", "1")), "1-4");
    assert_added(monitor.handle_event(addition("1-4", "1")), "1-4", &[0, 1]);
}

#[test]
fn device_starts_over_once_all_of_it_has_gone() {
    let mut monitor = dock_monitor();
    monitor.handle_event(addition("1-4", "0"));
    assert_removed(monitor.handle_event(removal("1-4", "0")), "1-4");
    assert!(monitor.handle_event(addition("1-4", "1")).is_none());
    assert_added(monitor.handle_event(addition("1-4", "0")), "1-4", &[0, 1]);
}

#[test]
fn scan_adds_complete_devices() {
    let mut monitor = dock_monitor();
    let found = vec![dock("1-5", "0"), dock("1-4", "1"), dock("1-4", "0"), dock("1-4", "2")];
    let mut events = monitor.scan(found);
    assert_eq!(events.len(), 1);
    assert_added(events.pop(), "1-4", &[0, 1]);
    assert_added(monitor.handle_event(addition("1-5", "1")), "1-5", &[0, 1]);
}

#[test]
fn product_that_needs_nothing_is_never_added() {
    let mut monitor = UsbMonitor::new(0x1532).with_product(0xa4, vec![]);
    assert!(monitor.handle_event(addition("1-4", "0")).is_none());
    assert!(monitor.scan(vec![dock("1-5", "0")]).is_empty());
}

#[test]
fn later_needs_of_a_product_replace_earlier_ones() {
    let mut monitor = dock_monitor().with_product(0xa4, vec![2]);
    assert!(monitor.handle_event(addition("1-4", "0")).is_none());
    assert_added(monitor.handle_event(addition("1-4", "2")), "1-4", &[2]);
}

#[test]
fn device_events_can_be_fed_in() {
    let mut monitor = dock_monitor();
    let event = |action, interface| DeviceEvent {
        action,
        device: DeviceInfo::from_udev(dock("1-4", interface), 0x1532).unwrap(),
    };
    assert!(monitor.emit_event(event(DeviceAction::Remove, "0")).is_none());
    assert!(monitor.emit_event(event(DeviceAction::Add, "0")).is_none());
    assert_added(monitor.emit_event(event(DeviceAction::Add, "1")), "1-4", &[0, 1]);
    assert_removed(monitor.emit_event(event(DeviceAction::Remove, "0")), "1-4");
}

#[test]
fn removal_tells_the_latest_addition() {
    let mut monitor = DeviceMonitor::new(0x1532);
    monitor.handle_event(UdevEvent::Add(device("1-4", "1", "a5")));
    monitor.handle_event(addition("1-4", "1"));
    let ignored = UdevDevice { devnode: None, ..dock("1-4", "1") };
    assert!(monitor.handle_event(UdevEvent::Add(ignored)).is_none());
    monitor.handle_event(removal("1-4", "0"));
    assert_event(monitor.handle_event(removal("1-4", "1")), DeviceAction::Remove, "1-4", 1);
}

#[test]
fn found_devices_are_known_as_added_ones() {
    let mut found = DeviceMonitor::new(0x1532);
    found.scan(vec![device("1-4", "1", "a5"), dock("1-4", "1")]);
    let mut added = DeviceMonitor::new(0x1532);
    added.handle_event(UdevEvent::Add(device("1-4", "1", "a5")));
    added.handle_event(addition("1-4", "1"));
    for monitor in [&mut found, &mut added] {
        assert_event(monitor.handle_event(removal("1-4", "1")), DeviceAction::Remove, "1-4", 1);
    }
}

#[test]
fn unneeded_events_leave_no_trace() {
    let mut monitor = dock_monitor();
    assert!(monitor.handle_event(addition("1-4", "2")).is_none());
    assert!(monitor.handle_event(addition("1-4", "0")).is_none());
    assert!(monitor.handle_event(removal("1-4", "2")).is_none());
    assert!(monitor.handle_event(UdevEvent::Add(device("1-4", "3", "a5"))).is_none());
    assert_added(monitor.handle_event(addition("1-4", "1")), "1-4", &[0, 1]);
}

#[test]
fn own_events_decide() {
    let mut alone = dock_monitor();
    let mut among = dock_monitor();
    for (usb, event) in [
        ("1-4", addition("1-4", "0")),
        ("1-5", addition("1-5", "1")),
        ("1-5", addition("1-5", "0")),
        ("1-4", removal("1-4", "0")),
        ("1-5", removal("1-5", "1")),
    ] {
        let own = usb == "1-4";
        let again = match &event {
            UdevEvent::Add(_) => addition("1-4", "0"),
            _ => removal("1-4", "0"),
        };
        let told = among.handle_event(event);
        if own {
            let expected = alone.handle_event(again);
            assert_eq!(told.map(|e| e.action), expected.map(|e| e.action));
        }
    }
    assert!(alone.handle_event(addition("1-4", "1")).is_none());
    assert!(among.handle_event(addition("1-4", "1")).is_none());
}

#[test]
fn order_of_the_interfaces_does_not_matter() {
    for order in [["0", "1", "2"], ["0", "2", "1"], ["1", "0", "2"], ["2", "1", "0"]] {
        let mut monitor = UsbMonitor::new(0x1532).with_product(0xa4, vec![0, 1, 2]);
        assert!(monitor.handle_event(addition("1-4", order[0])).is_none());
        assert!(monitor.handle_event(addition("1-4", order[1])).is_none());
        assert_added(monitor.handle_event(addition("1-4", order[2])), "1-4", &[0, 1, 2]);
    }
}

#[test]
fn addition_needs_live_interfaces() {
    let mut monitor = dock_monitor();
    assert!(monitor.handle_event(addition("1-4", "0")).is_none());
    assert_removed(monitor.handle_event(removal("1-4", "0")), "1-4");
    assert!(monitor.handle_event(addition("1-4", "1")).is_none());
    assert!(monitor.handle_event(addition("1-4", "1")).is_none());
    assert_added(monitor.handle_event(addition("1-4", "0")), "1-4", &[0, 1]);
    assert!(monitor.handle_event(addition("1-4", "0")).is_none());
    assert_removed(monitor.handle_event(removal("1-4", "0")), "1-4");
    assert_added(monitor.handle_event(addition("1-4", "0")), "1-4", &[0, 1]);
}

#[test]
fn failed_reads_are_handed_on() {
    let mut monitor = dock_monitor();
    assert!(monitor.handle_read::<&str>(Ok(addition("1-4", "0"))).is_none());
    assert_eq!(monitor.handle_read(Err("lost")).unwrap().err(), Some("lost"));
    let told = monitor.handle_read::<&str>(Ok(addition("1-4", "1"))).unwrap();
    assert_added(told.ok(), "1-4", &[0, 1]);
    assert!(monitor.handle_read::<&str>(Ok(UdevEvent::Other)).is_none());
}
