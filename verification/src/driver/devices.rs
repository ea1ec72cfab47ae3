//! The devices: what each is asked, and what its answers mean.

use vstd::prelude::*;

use crate::driver::protocol::{
    is_request, lemma_request_asks, Report, Request, RequestTask,
};

verus! {

/// The bits that a dock wants in its transaction ids.
pub const DOCK_BASE_TRANSACTION_ID: u8 = 0xe0;

/// The product id with which a dock answers when it has no paired device.
pub const NO_PAIRED_DEVICE: u16 = 0xffff;

/// The number that two bytes write, the high one first.
pub open spec fn big_endian(high: u8, low: u8) -> int {
    high * 256 + low
}

/// The number that two bytes write, the high one first.
pub fn u16_from_be(high: u8, low: u8) -> (number: u16)
    ensures
        number == big_endian(high, low),
        number / 256 == high,
        number % 256 == low,
{
    high as u16 * 256 + low as u16
}

/// A battery level out of 255 in whole percent, rounded down.
pub open spec fn percent(level: u8) -> int {
    level as int * 100 / 255
}

/// A battery level out of 255 in whole percent, rounded down.
pub fn battery_percent(level: u8) -> (whole: u8)
    ensures
        whole == percent(level),
        whole <= 100,
        whole * 255 <= level * 100 < (whole + 1) * 255,
{
    (level as u16 * 100 / 255) as u8
}

/// Whether `task` asks the device `device` for a command: see [`is_request`].
pub open spec fn is_task(
    task: RequestTask,
    device: RazerDevice,
    command_class: u8,
    command_id: u8,
    data_len: u8,
    data: Seq<u8>,
) -> bool {
    &&& task.base_transaction_id == device.base_transaction_id
    &&& is_request(task.request, command_class, command_id, data_len, data)
}

/// A device that answers requests.
#[derive(Debug, Clone, Copy, PartialEq, Eq, Structural)]
pub struct RazerDevice {
    pub base_transaction_id: u8,
}

impl RazerDevice {
    /// A request to the device.
    pub fn request(&self, request: Request) -> (task: RequestTask)
        ensures
            task.request == request,
            task.base_transaction_id == self.base_transaction_id,
    {
        RequestTask { request, base_transaction_id: self.base_transaction_id }
    }

    /// A request without data.
    pub(crate) fn command(&self, command_class: u8, command_id: u8, data_len: u8) -> (task:
        RequestTask)
        ensures
            is_task(task, *self, command_class, command_id, data_len, Seq::empty()),
    {
        let request = Request::new(command_class, command_id, data_len);
        assert(request.data@ =~= Seq::<u8>::empty() + Seq::new(80, |i: int| 0u8));
        self.request(request)
    }

    /// A request with data.
    pub(crate) fn command_with(
        &self,
        command_class: u8,
        command_id: u8,
        data_len: u8,
        data: &[u8],
    ) -> (task: RequestTask)
        requires
            data@.len() <= 80,
        ensures
            is_task(task, *self, command_class, command_id, data_len, data@),
    {
        let request = Request::new(command_class, command_id, data_len).with_data(data);
        assert(request.data@ =~= data@ + Seq::new((80 - data@.len()) as nat, |i: int| 0u8));
        self.request(request)
    }
}

/// A dock, to which a mouse can be paired.
#[derive(Debug, Clone, Copy, PartialEq, Eq, Structural)]
pub struct MouseDock {
    pub device: RazerDevice,
}

impl MouseDock {
    /// The dock.
    pub fn new() -> (dock: MouseDock)
        ensures
            dock.device.base_transaction_id == DOCK_BASE_TRANSACTION_ID,
    {
        MouseDock { device: RazerDevice { base_transaction_id: DOCK_BASE_TRANSACTION_ID } }
    }

    /// The dock as a device like any other.
    pub fn into_generic(self) -> (device: RazerDevice)
        ensures
            device == self.device,
    {
        self.device
    }

    /// Asks for the paired device.
    pub fn paired_device_request(&self) -> (task: RequestTask)
        ensures
            is_task(task, self.device, 0x00, 0xbf, 80, Seq::empty()),
    {
        self.device.command(0x00, 0xbf, 80)
    }

    /// The connection status and the product id of the paired device, if there is one.
    pub fn get_paired_device(report: &Report) -> (paired: Option<(u8, u16)>)
        ensures
            paired is None <==> big_endian(report.data@[2], report.data@[3]) == NO_PAIRED_DEVICE,
            paired matches Some((status, pid)) ==> {
                &&& status == report.data@[1]
                &&& pid == big_endian(report.data@[2], report.data@[3])
                &&& pid / 256 == report.data@[2]
                &&& pid % 256 == report.data@[3]
            },
            paired is None <==> report.data@[2] == 0xff && report.data@[3] == 0xff,
    {
        let status: u8 = report.data[1];
        let pid: u16 = u16_from_be(report.data[2], report.data[3]);
        if pid == NO_PAIRED_DEVICE {
            return None;
        }
        Some((status, pid))
    }
}

/// A mouse.
#[derive(Debug, Clone, Copy, PartialEq, Eq, Structural)]
pub struct Mouse {
    pub device: RazerDevice,
}

impl Mouse {
    /// A mouse that wants `base_transaction_id` in its transaction ids.
    pub fn new(base_transaction_id: u8) -> (mouse: Mouse)
        ensures
            mouse.device.base_transaction_id == base_transaction_id,
    {
        Mouse { device: RazerDevice { base_transaction_id } }
    }

    /// Asks for the battery level.
    pub fn battery_level_request(&self) -> (task: RequestTask)
        ensures
            is_task(task, self.device, 0x07, 0x80, 2, Seq::empty()),
    {
        self.device.command(0x07, 0x80, 2)
    }

    /// The battery level in percent.
    pub fn get_battery_level(report: &Report) -> (level: u8)
        ensures
            level == percent(report.data@[1]),
            level * 255 <= report.data@[1] * 100 < (level + 1) * 255,
    {
        battery_percent(report.data[1])
    }

    /// Asks for the charging status.
    pub fn charging_status_request(&self) -> (task: RequestTask)
        ensures
            is_task(task, self.device, 0x07, 0x84, 2, Seq::empty()),
    {
        self.device.command(0x07, 0x84, 2)
    }

    /// The charging status: 1 while the mouse charges.
    pub fn get_charging_status(report: &Report) -> (status: u8)
        ensures
            status == report.data@[1],
    {
        report.data[1]
    }

    /// Asks for the resolution.
    pub fn dpi_request(&self) -> (task: RequestTask)
        ensures
            is_task(task, self.device, 0x04, 0x85, 7, Seq::empty()),
    {
        self.device.command(0x04, 0x85, 7)
    }

    /// The resolution in dots per inch.
    pub fn get_dpi(report: &Report) -> (dpi: u16)
        ensures
            dpi == big_endian(report.data@[1], report.data@[2]),
            dpi / 256 == report.data@[1],
            dpi % 256 == report.data@[2],
    {
        u16_from_be(report.data[1], report.data[2])
    }
}

/// The number that two bytes write has them for its digits in base 256, so that no other two bytes
/// write it.
pub proof fn lemma_big_endian(high: u8, low: u8)
    ensures
        0 <= big_endian(high, low) < 0x10000,
        big_endian(high, low) / 256 == high,
        big_endian(high, low) % 256 == low,
{
}

/// A level in percent is the whole part of the share of 255: none at none, all at all, and never
/// more for a lower level.
pub proof fn lemma_percent(level: u8, higher: u8)
    requires
        level <= higher,
    ensures
        0 <= percent(level) <= 100,
        percent(level) * 255 <= level * 100,
        level * 100 < (percent(level) + 1) * 255,
        percent(level) <= percent(higher),
        level == 0 ==> percent(level) == 0,
        percent(level) == 100 <==> level == 255,
{
}

/// A task asks the device for which it was made, with the device's own transaction bits, for the
/// one command, and with all of the data at the front.
pub proof fn lemma_task_asks(
    task: RequestTask,
    device: RazerDevice,
    command_class: u8,
    command_id: u8,
    data_len: u8,
    data: Seq<u8>,
)
    requires
        is_task(task, device, command_class, command_id, data_len, data),
        data.len() <= 80,
    ensures
        task.base_transaction_id == device.base_transaction_id,
        task.request.command_class == command_class,
        task.request.command_id == command_id,
        task.request.data_len == data_len,
        forall|i: int| 0 <= i < data.len() ==> #[trigger] task.request.data@[i] == data[i],
        forall|i: int| data.len() <= i < 80 ==> #[trigger] task.request.data@[i] == 0,
{
    lemma_request_asks(task.request, command_class, command_id, data_len, data);
}

} // verus!
