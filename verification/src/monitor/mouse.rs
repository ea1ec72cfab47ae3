//! The state of a mouse: how it is read, and how it follows the reports of the mouse.

use vstd::prelude::*;

use crate::dbus::MouseState;
use crate::driver::devices::{
    battery_percent, big_endian, is_task, lemma_big_endian, lemma_percent, lemma_task_asks,
    percent, u16_from_be, Mouse,
};
use crate::driver::protocol::{Report, RequestTask};

verus! {

/// How far the state of a mouse has been read.
#[derive(Debug, Clone, Copy, PartialEq, Eq, Structural)]
pub enum MouseReading {
    /// The battery level is asked for.
    Battery,
    /// The charging status is asked for.
    Charging { battery_level: u8 },
    /// The resolution is asked for.
    Dpi { battery_level: u8, is_charging: bool },
}

/// What follows an answer.
#[derive(Debug, Clone, Copy, PartialEq, Eq, Structural)]
pub enum ReadingStep {
    /// More is to be asked.
    More(MouseReading),
    /// The state has been read.
    Done(MouseState),
}

/// What follows an answer with the data `data`.
pub open spec fn reading_step(reading: MouseReading, data: Seq<u8>) -> ReadingStep {
    match reading {
        MouseReading::Battery => ReadingStep::More(
            MouseReading::Charging { battery_level: percent(data[1]) as u8 },
        ),
        MouseReading::Charging { battery_level } => ReadingStep::More(
            MouseReading::Dpi { battery_level, is_charging: data[1] == 1 },
        ),
        MouseReading::Dpi { battery_level, is_charging } => ReadingStep::Done(
            MouseState {
                is_connected: true,
                battery_level,
                is_charging,
                dpi: big_endian(data[1], data[2]) as u16,
            },
        ),
    }
}

/// Whether `task` asks `mouse` for what is read next.
pub open spec fn is_reading_task(task: RequestTask, mouse: Mouse, reading: MouseReading) -> bool {
    match reading {
        MouseReading::Battery => is_task(task, mouse.device, 0x07, 0x80, 2, Seq::empty()),
        MouseReading::Charging { .. } => is_task(
            task,
            mouse.device,
            0x07,
            0x84,
            2,
            Seq::empty(),
        ),
        MouseReading::Dpi { .. } => is_task(task, mouse.device, 0x04, 0x85, 7, Seq::empty()),
    }
}

impl MouseReading {
    /// Asks for what is read next.
    pub fn request(&self, mouse: &Mouse) -> (task: RequestTask)
        ensures
            is_reading_task(task, *mouse, *self),
    {
        match self {
            MouseReading::Battery => mouse.battery_level_request(),
            MouseReading::Charging { .. } => mouse.charging_status_request(),
            MouseReading::Dpi { .. } => mouse.dpi_request(),
        }
    }

    /// What follows an answer.
    pub fn on_report(self, report: &Report) -> (step: ReadingStep)
        ensures
            step == reading_step(self, report.data@),
    {
        match self {
            MouseReading::Battery => ReadingStep::More(
                MouseReading::Charging { battery_level: Mouse::get_battery_level(report) },
            ),
            MouseReading::Charging { battery_level } => ReadingStep::More(
                MouseReading::Dpi {
                    battery_level,
                    is_charging: Mouse::get_charging_status(report) == 1,
                },
            ),
            MouseReading::Dpi { battery_level, is_charging } => ReadingStep::Done(
                MouseState {
                    is_connected: true,
                    battery_level,
                    is_charging,
                    dpi: Mouse::get_dpi(report),
                },
            ),
        }
    }
}

/// Three answers make up the state of a mouse, which then is connected.
pub proof fn lemma_mouse_state_read(battery: Seq<u8>, charging: Seq<u8>, dpi: Seq<u8>)
    ensures
        ({
            let second = reading_step(MouseReading::Battery, battery);
            &&& second is More
            &&& {
                let third = reading_step(second->More_0, charging);
                &&& third is More
                &&& reading_step(third->More_0, dpi) == ReadingStep::Done(
                    MouseState {
                        is_connected: true,
                        battery_level: percent(battery[1]) as u8,
                        is_charging: charging[1] == 1,
                        dpi: big_endian(dpi[1], dpi[2]) as u16,
                    },
                )
            }
        }),
{
}

/// How far a look at the state of a mouse has come.
#[derive(Debug, Clone, Copy, PartialEq, Eq, Structural)]
pub enum Polling {
    /// The battery level is asked for.
    Battery,
    /// The charging status is asked for.
    Charging { battery_level: u8 },
}

/// What follows an answer.
#[derive(Debug, Clone, Copy, PartialEq, Eq, Structural)]
pub enum PollingStep {
    /// More is to be asked.
    More(Polling),
    /// The state is to be updated with [`update_battery`].
    Update { battery_level: u8, is_charging: bool },
}

/// Starts a look at the state of a mouse. A mouse that is not connected is not asked.
pub fn poll_device_state(state: &MouseState) -> (polling: Option<Polling>)
    ensures
        polling == (if state.is_connected {
            Some(Polling::Battery)
        } else {
            None
        }),
{
    if state.is_connected {
        Some(Polling::Battery)
    } else {
        None
    }
}

impl Polling {
    /// Asks for what is looked at next.
    pub fn request(&self, mouse: &Mouse) -> (task: RequestTask)
        ensures
            *self is Battery ==> is_task(task, mouse.device, 0x07, 0x80, 2, Seq::empty()),
            *self is Charging ==> is_task(task, mouse.device, 0x07, 0x84, 2, Seq::empty()),
    {
        match self {
            Polling::Battery => mouse.battery_level_request(),
            Polling::Charging { .. } => mouse.charging_status_request(),
        }
    }

    /// What follows an answer.
    pub fn on_report(self, report: &Report) -> (step: PollingStep)
        ensures
            step == (match self {
                Polling::Battery => PollingStep::More(
                    Polling::Charging { battery_level: percent(report.data@[1]) as u8 },
                ),
                Polling::Charging { battery_level } => PollingStep::Update {
                    battery_level,
                    is_charging: report.data@[1] == 1,
                },
            }),
    {
        match self {
            Polling::Battery => PollingStep::More(
                Polling::Charging { battery_level: Mouse::get_battery_level(report) },
            ),
            Polling::Charging { battery_level } => PollingStep::Update {
                battery_level,
                is_charging: Mouse::get_charging_status(report) == 1,
            },
        }
    }
}

/// What a mouse tells of its own accord.
#[derive(Debug, Clone, Copy, PartialEq, Eq, Structural)]
pub enum InputReport {
    /// The resolution is now this.
    Dpi(u16),
    /// The mouse is now connected, or no longer.
    Connection(bool),
    /// The connection is in a state that is not known.
    UnknownConnection(u8),
    /// The battery is now at this level, in percent.
    Battery { battery_level: u8, is_charging: bool },
    /// Something that is not known.
    Unknown,
}

/// The number of bytes of an input report.
pub const INPUT_REPORT_LEN: usize = 16;

/// A read gave this number of bytes, which is not that of an input report.
#[derive(Debug, Clone, Copy, PartialEq, Eq, Structural)]
pub struct UnexpectedSize(pub usize);

/// What the input report that is written `bytes` tells.
pub open spec fn input_report(bytes: Seq<u8>) -> InputReport {
    if bytes[0] == 5 && bytes[1] == 2 {
        InputReport::Dpi(big_endian(bytes[2], bytes[3]) as u16)
    } else if bytes[0] == 5 && bytes[1] == 9 {
        if bytes[2] == 2 {
            InputReport::Connection(false)
        } else if bytes[2] == 3 {
            InputReport::Connection(true)
        } else {
            InputReport::UnknownConnection(bytes[2])
        }
    } else if bytes[0] == 5 && bytes[1] == 49 {
        InputReport::Battery {
            battery_level: percent(bytes[2]) as u8,
            is_charging: bytes[3] == 1,
        }
    } else {
        InputReport::Unknown
    }
}

/// What an input report tells, of which `size` bytes were read into `bytes`.
pub fn parse_input_report(bytes: &[u8; 16], size: usize) -> (report: Result<
    InputReport,
    UnexpectedSize,
>)
    ensures
        report == (if size == INPUT_REPORT_LEN {
            Ok(input_report(bytes@))
        } else {
            Err(UnexpectedSize(size))
        }),
        report is Ok <==> size == 16,
{
    if size != INPUT_REPORT_LEN {
        return Err(UnexpectedSize(size));
    }
    if bytes[0] == 5 && bytes[1] == 2 {
        Ok(InputReport::Dpi(u16_from_be(bytes[2], bytes[3])))
    } else if bytes[0] == 5 && bytes[1] == 9 {
        match bytes[2] {
            2 => Ok(InputReport::Connection(false)),
            3 => Ok(InputReport::Connection(true)),
            state => Ok(InputReport::UnknownConnection(state)),
        }
    } else if bytes[0] == 5 && bytes[1] == 49 {
        Ok(
            InputReport::Battery {
                battery_level: battery_percent(bytes[2]),
                is_charging: bytes[3] == 1,
            },
        )
    } else {
        Ok(InputReport::Unknown)
    }
}

/// What is to be done after a change of the state. What follows is said by [`on_state_read`] once
/// the state has been read, and by [`on_done`] once anything else has been done.
#[derive(Debug, Clone, Copy, PartialEq, Eq, Structural)]
pub enum StateAction {
    /// Nothing.
    Rest,
    /// The change of the resolution is to be made known.
    NotifyDpi,
    /// The change of the connection is to be made known.
    NotifyConnected,
    /// The state of the mouse is to be read.
    ReadState,
    /// The change of the battery level is to be made known, before what is known of the charging
    /// is taken on.
    NotifyBattery { is_charging: bool },
    /// The change of the charging is to be made known.
    NotifyCharging,
}

/// Takes on whether the mouse charges.
pub fn update_charging(state: &mut MouseState, is_charging: bool) -> (action: StateAction)
    ensures
        *final(state) == (MouseState { is_charging, ..*old(state) }),
        action == (if old(state).is_charging != is_charging {
            StateAction::NotifyCharging
        } else {
            StateAction::Rest
        }),
{
    if state.is_charging != is_charging {
        state.is_charging = is_charging;
        StateAction::NotifyCharging
    } else {
        StateAction::Rest
    }
}

/// Takes on a battery level, and whether the mouse charges, as after an input report that tells
/// them: at once, or after the change of the level has been made known.
pub fn update_battery(state: &mut MouseState, battery_level: u8, is_charging: bool) -> (action:
    StateAction)
    ensures
        (*final(state), action) == input_step(
            *old(state),
            InputReport::Battery { battery_level, is_charging },
        ),
{
    if state.battery_level != battery_level {
        state.battery_level = battery_level;
        StateAction::NotifyBattery { is_charging }
    } else {
        update_charging(state, is_charging)
    }
}

/// The state after an input report, and what is to be done then.
pub open spec fn input_step(state: MouseState, report: InputReport) -> (MouseState, StateAction) {
    match report {
        InputReport::Dpi(dpi) => if state.dpi != dpi {
            (MouseState { dpi, ..state }, StateAction::NotifyDpi)
        } else {
            (state, StateAction::Rest)
        },
        InputReport::Connection(is_connected) => if state.is_connected != is_connected {
            (
                MouseState { is_connected, ..state },
                if is_connected {
                    StateAction::ReadState
                } else {
                    StateAction::NotifyConnected
                },
            )
        } else {
            (state, StateAction::Rest)
        },
        InputReport::Battery { battery_level, is_charging } => if state.battery_level
            != battery_level {
            (
                MouseState { battery_level, ..state },
                StateAction::NotifyBattery { is_charging },
            )
        } else if state.is_charging != is_charging {
            (MouseState { is_charging, ..state }, StateAction::NotifyCharging)
        } else {
            (state, StateAction::Rest)
        },
        InputReport::UnknownConnection(_) => (state, StateAction::Rest),
        InputReport::Unknown => (state, StateAction::Rest),
    }
}

/// Follows an input report.
pub fn on_input(state: &mut MouseState, report: InputReport) -> (action: StateAction)
    ensures
        (*final(state), action) == input_step(*old(state), report),
        report matches InputReport::Dpi(dpi) ==> {
            &&& *final(state) == (MouseState { dpi, ..*old(state) })
            &&& action == StateAction::NotifyDpi <==> old(state).dpi != dpi
            &&& action == StateAction::Rest <==> old(state).dpi == dpi
        },
        report matches InputReport::Connection(is_connected) ==> {
            &&& *final(state) == (MouseState { is_connected, ..*old(state) })
            &&& action == StateAction::Rest <==> old(state).is_connected == is_connected
        },
{
    match report {
        InputReport::Dpi(dpi) => {
            if state.dpi != dpi {
                state.dpi = dpi;
                StateAction::NotifyDpi
            } else {
                StateAction::Rest
            }
        },
        InputReport::Connection(is_connected) => {
            if state.is_connected != is_connected {
                state.is_connected = is_connected;
                if is_connected {
                    StateAction::ReadState
                } else {
                    StateAction::NotifyConnected
                }
            } else {
                StateAction::Rest
            }
        },
        InputReport::Battery { battery_level, is_charging } => update_battery(
            state,
            battery_level,
            is_charging,
        ),
        InputReport::UnknownConnection(_) => StateAction::Rest,
        InputReport::Unknown => StateAction::Rest,
    }
}

/// Takes on the state that was read from a mouse that has just connected.
pub fn on_state_read(state: &mut MouseState, read: MouseState) -> (action: StateAction)
    ensures
        *final(state) == read,
        action == StateAction::NotifyConnected,
{
    *state = read;
    StateAction::NotifyConnected
}

/// The state after `action` has been done, and what is to be done then: after the battery level has
/// been made known the charging is taken on, and after anything else there is nothing.
pub open spec fn done_step(state: MouseState, action: StateAction) -> (MouseState, StateAction) {
    match action {
        StateAction::NotifyBattery { is_charging } => (
            MouseState { is_charging, ..state },
            if state.is_charging != is_charging {
                StateAction::NotifyCharging
            } else {
                StateAction::Rest
            },
        ),
        _ => (state, StateAction::Rest),
    }
}

/// Goes on once `action` has been done.
pub fn on_done(state: &mut MouseState, action: StateAction) -> (next: StateAction)
    requires
        !(action is ReadState),
    ensures
        (*final(state), next) == done_step(*old(state), action),
{
    match action {
        StateAction::NotifyBattery { is_charging } => update_charging(state, is_charging),
        _ => StateAction::Rest,
    }
}

/// The state and the action that are reached from `action` once it, and whatever follows it, has
/// been done `n` times.
pub open spec fn done_steps(state: MouseState, action: StateAction, n: nat) -> (
    MouseState,
    StateAction,
)
    decreases n,
{
    if n == 0 {
        (state, action)
    } else {
        let (before, last) = done_steps(state, action, (n - 1) as nat);
        done_step(before, last)
    }
}

/// Whatever is to be done but to read the state, at most two actions later there is nothing more to
/// do, and the state then stays as it is.
pub proof fn lemma_actions_end(state: MouseState, action: StateAction, n: nat)
    requires
        !(action is ReadState),
        n >= 2,
    ensures
        done_steps(state, action, 2).1 == StateAction::Rest,
        done_steps(state, action, n) == done_steps(state, action, 2),
    decreases n,
{
    reveal_with_fuel(done_steps, 3);
    if n > 2 {
        lemma_actions_end(state, action, (n - 1) as nat);
    }
}

/// Nothing is to be done after an input report if and only if it changes nothing, and a report that
/// does not concern the battery changes nothing when it comes again.
pub proof fn lemma_no_change_no_action(state: MouseState, report: InputReport)
    ensures
        input_step(state, report).1 == StateAction::Rest <==> input_step(state, report).0 == state,
        !(report is Battery) ==> input_step(input_step(state, report).0, report) == (
            input_step(state, report).0,
            StateAction::Rest,
        ),
{
}

/// Once a battery report has been followed to its end, through the notification of the level if
/// that changed, the state is as the report tells, and nothing else of it changed. When the report
/// comes again it changes nothing.
pub proof fn lemma_battery_followed(state: MouseState, battery_level: u8, is_charging: bool)
    ensures
        ({
            let report = InputReport::Battery { battery_level, is_charging };
            let (reached, action) = input_step(state, report);
            let done = MouseState { battery_level, is_charging, ..state };
            &&& state.battery_level != battery_level <==> action is NotifyBattery
            &&& done_steps(reached, action, 2) == (done, StateAction::Rest)
            &&& input_step(done, report) == (done, StateAction::Rest)
        }),
{
    reveal_with_fuel(done_steps, 3);
}

/// An answer tells the battery level in its second byte, rounded down to whole percent, the
/// charging in its second byte, and the resolution in its second and third byte, the high one
/// first; and what has been read before stays.
pub proof fn lemma_reading_decided(battery_level: u8, is_charging: bool, data: Seq<u8>)
    ensures
        reading_step(MouseReading::Battery, data) matches ReadingStep::More(next)
            && next matches MouseReading::Charging { battery_level: level } && level * 255
            <= data[1] * 100 && data[1] * 100 < (level + 1) * 255,
        reading_step(MouseReading::Charging { battery_level }, data) == ReadingStep::More(
            MouseReading::Dpi { battery_level, is_charging: data[1] == 1 },
        ),
        reading_step(MouseReading::Dpi { battery_level, is_charging }, data)
            matches ReadingStep::Done(state) && {
            &&& state.is_connected
            &&& state.battery_level == battery_level
            &&& state.is_charging == is_charging
            &&& state.dpi / 256 == data[1]
            &&& state.dpi % 256 == data[2]
        },
{
    lemma_percent(data[1], data[1]);
    lemma_big_endian(data[1], data[2]);
}

/// Each step of a reading asks the mouse itself, for the command that tells what is read.
pub proof fn lemma_reading_asks(task: RequestTask, mouse: Mouse, reading: MouseReading)
    requires
        is_reading_task(task, mouse, reading),
    ensures
        task.base_transaction_id == mouse.device.base_transaction_id,
        reading is Battery ==> task.request.command_class == 0x07 && task.request.command_id == 0x80
            && task.request.data_len == 2,
        reading is Charging ==> task.request.command_class == 0x07 && task.request.command_id
            == 0x84 && task.request.data_len == 2,
        reading is Dpi ==> task.request.command_class == 0x04 && task.request.command_id == 0x85
            && task.request.data_len == 7,
        forall|i: int| 0 <= i < 80 ==> #[trigger] task.request.data@[i] == 0,
{
    match reading {
        MouseReading::Battery => {
            lemma_task_asks(task, mouse.device, 0x07, 0x80, 2, Seq::empty());
        },
        MouseReading::Charging { .. } => {
            lemma_task_asks(task, mouse.device, 0x07, 0x84, 2, Seq::empty());
        },
        MouseReading::Dpi { .. } => {
            lemma_task_asks(task, mouse.device, 0x04, 0x85, 7, Seq::empty());
        },
    }
}

/// What an input report tells is decided by its first two bytes, and is told by the two after them:
/// the resolution, the high byte first; the connection, two if it is lost and three if it is there;
/// or the battery level, rounded down to whole percent, and the charging.
pub proof fn lemma_input_report_decided(bytes: Seq<u8>)
    ensures
        match input_report(bytes) {
            InputReport::Dpi(dpi) => {
                &&& bytes[0] == 5 && bytes[1] == 2
                &&& dpi / 256 == bytes[2]
                &&& dpi % 256 == bytes[3]
            },
            InputReport::Connection(is_connected) => {
                &&& bytes[0] == 5 && bytes[1] == 9
                &&& is_connected ==> bytes[2] == 3
                &&& !is_connected ==> bytes[2] == 2
            },
            InputReport::UnknownConnection(state) => {
                &&& bytes[0] == 5 && bytes[1] == 9
                &&& state == bytes[2]
                &&& state != 2 && state != 3
            },
            InputReport::Battery { battery_level, is_charging } => {
                &&& bytes[0] == 5 && bytes[1] == 49
                &&& battery_level * 255 <= bytes[2] * 100
                &&& bytes[2] * 100 < (battery_level + 1) * 255
                &&& is_charging <==> bytes[3] == 1
            },
            InputReport::Unknown => bytes[0] != 5 || (bytes[1] != 2 && bytes[1] != 9 && bytes[1]
                != 49),
        },
{
    lemma_percent(bytes[2], bytes[2]);
    lemma_big_endian(bytes[2], bytes[3]);
}

/// Whatever the state was, after a report of the resolution it has that resolution, higher or
/// lower, and is otherwise as it was; the change is made known exactly if there was one.
pub proof fn lemma_resolution_followed(state: MouseState, dpi: u16)
    ensures
        ({
            let (after, action) = input_step(state, InputReport::Dpi(dpi));
            &&& after.dpi == dpi
            &&& after.is_connected == state.is_connected
            &&& after.battery_level == state.battery_level
            &&& after.is_charging == state.is_charging
            &&& state.dpi != dpi ==> action == StateAction::NotifyDpi
            &&& state.dpi == dpi ==> action == StateAction::Rest
        }),
{
}

/// Whatever the state was, after a report of the connection it has that connection and is otherwise
/// as it was; where the connection was made the state of the mouse is read, and where it was lost
/// that is made known.
pub proof fn lemma_connection_followed(state: MouseState, is_connected: bool)
    ensures
        ({
            let (after, action) = input_step(state, InputReport::Connection(is_connected));
            &&& after.is_connected == is_connected
            &&& after.battery_level == state.battery_level
            &&& after.is_charging == state.is_charging
            &&& after.dpi == state.dpi
            &&& state.is_connected == is_connected ==> action == StateAction::Rest
            &&& !state.is_connected && is_connected ==> action == StateAction::ReadState
            &&& state.is_connected && !is_connected ==> action == StateAction::NotifyConnected
        }),
{
}

/// A battery report that changes the level is taken on level first, and what it tells of the
/// charging after the level has been made known; one that does not is taken on at once. Each change
/// is made known, and nothing else.
pub proof fn lemma_battery_report_followed(state: MouseState, battery_level: u8, is_charging: bool)
    ensures
        ({
            let report = InputReport::Battery { battery_level, is_charging };
            let (after, action) = input_step(state, report);
            let (done, next) = done_step(after, action);
            &&& after.battery_level == battery_level
            &&& after.is_connected == state.is_connected
            &&& after.dpi == state.dpi
            &&& state.battery_level != battery_level ==> {
                &&& after.is_charging == state.is_charging
                &&& action == StateAction::NotifyBattery { is_charging }
                &&& done.battery_level == battery_level
                &&& done.is_charging == is_charging
                &&& done.is_connected == state.is_connected
                &&& done.dpi == state.dpi
                &&& state.is_charging != is_charging ==> next == StateAction::NotifyCharging
                &&& state.is_charging == is_charging ==> next == StateAction::Rest
            }
            &&& state.battery_level == battery_level ==> {
                &&& after.is_charging == is_charging
                &&& state.is_charging != is_charging ==> action == StateAction::NotifyCharging
                &&& state.is_charging == is_charging ==> action == StateAction::Rest
            }
        }),
{
}

/// A report that is not known changes nothing, and after an action other than the notification of
/// the battery level nothing changes and nothing is left to do.
pub proof fn lemma_nothing_else_changes(state: MouseState, byte: u8, action: StateAction)
    ensures
        input_step(state, InputReport::Unknown) == (state, StateAction::Rest),
        input_step(state, InputReport::UnknownConnection(byte)) == (state, StateAction::Rest),
        !(action is NotifyBattery) ==> done_step(state, action) == (state, StateAction::Rest),
{
}

} // verus!
