use fang::dbus::MouseState;
use fang::driver::devices::Mouse;
use fang::driver::protocol::Report;
use fang::monitor::mouse::{
    on_done, on_input, on_state_read, parse_input_report, poll_device_state, update_battery,
    update_charging, InputReport, MouseReading, Polling, PollingStep, ReadingStep, StateAction,
    UnexpectedSize, INPUT_REPORT_LEN,
};

fn report(data: &[u8]) -> Report {
    let mut bytes = [0u8; 91];
    bytes[9..9 + data.len()].copy_from_slice(data);
    Report::read_from_bytes(&bytes).unwrap()
}

fn input(front: &[u8]) -> InputReport {
    let mut bytes = [0u8; 16];
    bytes[..front.len()].copy_from_slice(front);
    parse_input_report(&bytes, 16).unwrap()
}

fn connected() -> MouseState {
    MouseState { is_connected: true, battery_level: 50, is_charging: false, dpi: 1600 }
}

#[test]
fn state_is_read_in_three_answers() {
    let mouse = Mouse::new(0xe0);
    let reading = MouseReading::Battery;
    let task = reading.request(&mouse);
    assert_eq!((task.request.command_class, task.request.command_id), (0x07, 0x80));
    let reading = match reading.on_report(&report(&[0, 128])) {
        ReadingStep::More(reading) => reading,
        ReadingStep::Done(_) => panic!("two answers are missing"),
    };
    assert_eq!(reading, MouseReading::Charging { battery_level: 50 });
    let task = reading.request(&mouse);
    assert_eq!((task.request.command_class, task.request.command_id), (0x07, 0x84));
    let reading = match reading.on_report(&report(&[0, 1])) {
        ReadingStep::More(reading) => reading,
        ReadingStep::Done(_) => panic!("an answer is missing"),
    };
    assert_eq!(reading, MouseReading::Dpi { battery_level: 50, is_charging: true });
    let task = reading.request(&mouse);
    assert_eq!((task.request.command_class, task.request.command_id), (0x04, 0x85));
    assert_eq!(
        reading.on_report(&report(&[0, 0x06, 0x40])),
        ReadingStep::Done(MouseState {
            is_connected: true,
            battery_level: 50,
            is_charging: true,
            dpi: 1600,
        })
    );
}

#[test]
fn only_one_means_charging() {
    let reading = MouseReading::Charging { battery_level: 7 };
    for status in [0, 2, 255] {
        assert_eq!(
            reading.on_report(&report(&[1, status])),
            ReadingStep::More(MouseReading::Dpi { battery_level: 7, is_charging: false })
        );
    }
}

#[test]
fn mouse_that_is_not_connected_is_not_polled() {
    assert_eq!(poll_device_state(&MouseState::default()), None);
    assert_eq!(poll_device_state(&connected()), Some(Polling::Battery));
}

#[test]
fn polling_takes_two_answers() {
    let mouse = Mouse::new(0xe0);
    let task = Polling::Battery.request(&mouse);
    assert_eq!((task.request.command_class, task.request.command_id), (0x07, 0x80));
    let next = Polling::Charging { battery_level: 100 };
    assert_eq!(Polling::Battery.on_report(&report(&[0, 255])), PollingStep::More(next));
    let task = next.request(&mouse);
    assert_eq!((task.request.command_class, task.request.command_id), (0x07, 0x84));
    assert_eq!(
        next.on_report(&report(&[0, 1])),
        PollingStep::Update { battery_level: 100, is_charging: true }
    );
    assert_eq!(
        next.on_report(&report(&[1, 0])),
        PollingStep::Update { battery_level: 100, is_charging: false }
    );
}

#[test]
fn input_reports() {
    assert_eq!(input(&[5, 2, 0x06, 0x40]), InputReport::Dpi(1600));
    assert_eq!(input(&[5, 9, 2]), InputReport::Connection(false));
    assert_eq!(input(&[5, 9, 3]), InputReport::Connection(true));
    assert_eq!(input(&[5, 9, 4]), InputReport::UnknownConnection(4));
    assert_eq!(input(&[5, 9, 0]), InputReport::UnknownConnection(0));
    assert_eq!(
        input(&[5, 49, 128, 1]),
        InputReport::Battery { battery_level: 50, is_charging: true }
    );
    assert_eq!(
        input(&[5, 49, 255, 2]),
        InputReport::Battery { battery_level: 100, is_charging: false }
    );
    assert_eq!(input(&[5, 3]), InputReport::Unknown);
    assert_eq!(input(&[4, 2, 6, 64]), InputReport::Unknown);
}

#[test]
fn battery_reports_are_in_percent() {
    for level in 0..=255u8 {
        let battery_level = ((f64::from(level) / 255.0) * 100.0) as u8;
        assert_eq!(
            input(&[5, 49, level, 0]),
            InputReport::Battery { battery_level, is_charging: false }
        );
    }
}

#[test]
fn input_report_of_another_size_is_refused() {
    assert_eq!(INPUT_REPORT_LEN, 16);
    for size in [0, 1, 15, 17] {
        assert_eq!(parse_input_report(&[0; 16], size), Err(UnexpectedSize(size)));
    }
}

#[test]
fn resolution_is_followed() {
    let mut state = connected();
    assert_eq!(on_input(&mut state, InputReport::Dpi(1600)), StateAction::Rest);
    assert_eq!(on_input(&mut state, InputReport::Dpi(800)), StateAction::NotifyDpi);
    assert_eq!(state, MouseState { dpi: 800, ..connected() });
    assert_eq!(on_input(&mut state, InputReport::Dpi(800)), StateAction::Rest);
    assert_eq!(state, MouseState { dpi: 800, ..connected() });
}

#[test]
fn connection_is_followed() {
    let mut state = connected();
    assert_eq!(on_input(&mut state, InputReport::Connection(true)), StateAction::Rest);
    assert_eq!(
        on_input(&mut state, InputReport::Connection(false)),
        StateAction::NotifyConnected
    );
    assert_eq!(state, MouseState { is_connected: false, ..connected() });
    assert_eq!(on_input(&mut state, InputReport::Connection(false)), StateAction::Rest);
    assert_eq!(on_input(&mut state, InputReport::Connection(true)), StateAction::ReadState);
    let read = MouseState { is_connected: true, battery_level: 9, is_charging: true, dpi: 400 };
    assert_eq!(on_state_read(&mut state, read), StateAction::NotifyConnected);
    assert_eq!(state, read);
}

#[test]
fn unknown_reports_change_nothing() {
    let mut state = connected();
    assert_eq!(on_input(&mut state, InputReport::UnknownConnection(9)), StateAction::Rest);
    assert_eq!(on_input(&mut state, InputReport::Unknown), StateAction::Rest);
    assert_eq!(state, connected());
}

#[test]
fn battery_is_followed_level_first() {
    let report = InputReport::Battery { battery_level: 40, is_charging: true };
    let mut state = connected();
    assert_eq!(
        on_input(&mut state, report),
        StateAction::NotifyBattery { is_charging: true }
    );
    assert_eq!(state, MouseState { battery_level: 40, ..connected() });
    let action = on_done(&mut state, StateAction::NotifyBattery { is_charging: true });
    assert_eq!(action, StateAction::NotifyCharging);
    assert_eq!(state, MouseState { battery_level: 40, is_charging: true, ..connected() });
    assert_eq!(on_done(&mut state, action), StateAction::Rest);
    assert_eq!(on_input(&mut state, report), StateAction::Rest);
    assert_eq!(state, MouseState { battery_level: 40, is_charging: true, ..connected() });
}

#[test]
fn charging_alone_is_followed() {
    let mut state = connected();
    assert_eq!(update_battery(&mut state, 50, true), StateAction::NotifyCharging);
    assert_eq!(state, MouseState { is_charging: true, ..connected() });
    assert_eq!(update_battery(&mut state, 50, true), StateAction::Rest);
    assert_eq!(update_charging(&mut state, true), StateAction::Rest);
    assert_eq!(state, MouseState { is_charging: true, ..connected() });
}

#[test]
fn nothing_follows_the_other_actions() {
    let actions = [
        StateAction::Rest,
        StateAction::NotifyDpi,
        StateAction::NotifyConnected,
        StateAction::NotifyCharging,
        StateAction::NotifyBattery { is_charging: false },
    ];
    for action in actions {
        let mut state = connected();
        assert_eq!(on_done(&mut state, action), StateAction::Rest);
        assert_eq!(state, connected());
    }
}

#[test]
fn actions_come_to_an_end() {
    let mut state = connected();
    let first = on_input(&mut state, InputReport::Battery { battery_level: 1, is_charging: true });
    let second = on_done(&mut state, first);
    let third = on_done(&mut state, second);
    assert_eq!(second, StateAction::NotifyCharging);
    assert_eq!(third, StateAction::Rest);
}

#[test]
fn poll_is_followed_like_a_battery_report() {
    for (battery_level, is_charging) in [(50, false), (50, true), (51, false), (51, true)] {
        let mut polled = connected();
        let mut told = connected();
        let report = InputReport::Battery { battery_level, is_charging };
        assert_eq!(
            update_battery(&mut polled, battery_level, is_charging),
            on_input(&mut told, report)
        );
        assert_eq!(polled, told);
    }
}
