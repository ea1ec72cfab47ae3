use fang::driver::chroma::{
    available_effects_request, brightness_request, effect_request, get_available_effects,
    get_brightness, get_effect, get_lighting_regions, lighting_regions_request, set_brightness,
    set_effect, set_effect_request, LightingRegion, MAX_REGIONS,
};
use fang::driver::devices::{
    battery_percent, u16_from_be, Mouse, MouseDock, RazerDevice, DOCK_BASE_TRANSACTION_ID,
};
use fang::driver::protocol::{Report, Request, RequestTask};

fn report(data_len: u8, data: &[u8]) -> Report {
    let mut bytes = [0u8; 91];
    bytes[6] = data_len;
    bytes[9..9 + data.len()].copy_from_slice(data);
    Report::read_from_bytes(&bytes).unwrap()
}

fn assert_task(task: RequestTask, base: u8, class: u8, id: u8, data_len: u8, data: &[u8]) {
    let mut expected = [0u8; 80];
    expected[..data.len()].copy_from_slice(data);
    assert_eq!(task.base_transaction_id, base);
    assert_eq!(task.request.command_class, class);
    assert_eq!(task.request.command_id, id);
    assert_eq!(task.request.data_len, data_len);
    assert_eq!(task.request.data, expected);
}

#[test]
fn battery_level_in_percent() {
    assert_eq!(battery_percent(0), 0);
    assert_eq!(battery_percent(2), 0);
    assert_eq!(battery_percent(3), 1);
    assert_eq!(battery_percent(128), 50);
    assert_eq!(battery_percent(254), 99);
    assert_eq!(battery_percent(255), 100);
}

#[test]
fn battery_level_is_that_of_the_quotient() {
    for level in 0..=255u8 {
        let percent = ((f64::from(level) / 255.0) * 100.0) as u8;
        assert_eq!(battery_percent(level), percent);
        assert_eq!(Mouse::get_battery_level(&report(2, &[0, level])), percent);
    }
}

#[test]
fn numbers_of_two_bytes() {
    assert_eq!(u16_from_be(0x12, 0x34), 0x1234);
    assert_eq!(u16_from_be(0, 255), 255);
    assert_eq!(u16_from_be(255, 255), u16::from_be_bytes([255, 255]));
}

#[test]
fn device_asks_with_its_transaction_bits() {
    let device = RazerDevice { base_transaction_id: 0x60 };
    assert_task(device.request(Request::new(1, 2, 3)), 0x60, 1, 2, 3, &[]);
}

#[test]
fn dock_asks_for_the_paired_device() {
    let dock = MouseDock::new();
    assert_eq!(dock.into_generic().base_transaction_id, 0xe0);
    assert_eq!(DOCK_BASE_TRANSACTION_ID, 0xe0);
    assert_task(dock.paired_device_request(), 0xe0, 0x00, 0xbf, 80, &[]);
}

#[test]
fn paired_device() {
    let paired = |data: &[u8]| MouseDock::get_paired_device(&report(80, data));
    assert_eq!(paired(&[9, 1, 0x00, 0xcd]), Some((1, 0xcd)));
    assert_eq!(paired(&[9, 0, 0x12, 0x34]), Some((0, 0x1234)));
    assert_eq!(paired(&[9, 1, 0xff, 0xfe]), Some((1, 0xfffe)));
    assert_eq!(paired(&[9, 1, 0xff, 0xff]), None);
}

#[test]
fn mouse_requests() {
    let mouse = Mouse::new(0x80);
    assert_task(mouse.battery_level_request(), 0x80, 0x07, 0x80, 2, &[]);
    assert_task(mouse.charging_status_request(), 0x80, 0x07, 0x84, 2, &[]);
    assert_task(mouse.dpi_request(), 0x80, 0x04, 0x85, 7, &[]);
}

#[test]
fn mouse_answers() {
    assert_eq!(Mouse::get_charging_status(&report(2, &[7, 1])), 1);
    assert_eq!(Mouse::get_charging_status(&report(2, &[1, 0])), 0);
    assert_eq!(Mouse::get_dpi(&report(7, &[1, 0x06, 0x40, 9])), 1600);
    assert_eq!(Mouse::get_dpi(&report(7, &[0, 0x88, 0xb8])), 35000);
}

#[test]
fn lighting_requests() {
    let device = RazerDevice { base_transaction_id: 0xe0 };
    assert_task(lighting_regions_request(&device), 0xe0, 0x0f, 0x80, 80, &[]);
    assert_task(available_effects_request(&device, 5), 0xe0, 0x0f, 0x81, 80, &[5]);
    assert_task(effect_request(&device, 5), 0xe0, 0x0f, 0x82, 80, &[0, 5]);
    assert_task(set_effect_request(&device, 5, 4), 0xe0, 0x0f, 0x02, 80, &[0, 5, 4]);
    assert_task(brightness_request(&device, 5), 0xe0, 0x0f, 0x84, 3, &[0, 5]);
    assert_task(set_brightness(&device, 5, 99), 0xe0, 0x0f, 0x04, 3, &[0, 5, 99]);
}

#[test]
fn lighting_regions() {
    let data = [1, 100, 101, 8, 2, 4, 102, 103, 16, 1, 7, 7, 7, 7, 7];
    let first = LightingRegion { region_id: 1, matrix_x: 8, matrix_y: 2 };
    let second = LightingRegion { region_id: 4, matrix_x: 16, matrix_y: 1 };
    assert_eq!(get_lighting_regions(&report(10, &data)), vec![first, second]);
    assert_eq!(get_lighting_regions(&report(14, &data)), vec![first, second]);
    assert_eq!(get_lighting_regions(&report(5, &data)), vec![first]);
    assert_eq!(get_lighting_regions(&report(4, &data)), vec![]);
    assert_eq!(get_lighting_regions(&report(0, &data)), vec![]);
}

#[test]
fn report_is_full_with_sixteen_regions() {
    let data: Vec<u8> = (0..80).collect();
    let regions = get_lighting_regions(&report(84, &data));
    assert_eq!(regions.len(), 16);
    assert_eq!(MAX_REGIONS, 16);
    assert_eq!(regions[15], LightingRegion { region_id: 75, matrix_x: 78, matrix_y: 79 });
}

#[test]
fn available_effects() {
    assert_eq!(get_available_effects(&report(4, &[5, 1, 3, 2, 9])), vec![1, 3, 2]);
    assert_eq!(get_available_effects(&report(1, &[5, 1])), Vec::<u8>::new());
    let data: Vec<u8> = (0..80).collect();
    assert_eq!(get_available_effects(&report(80, &data)), data[1..].to_vec());
}

#[test]
fn region_answers() {
    let answer = report(3, &[0, 5, 77]);
    assert_eq!(get_effect(&answer), 77);
    assert_eq!(set_effect(&answer), 77);
    assert_eq!(get_brightness(&answer), 77);
}
