//! Lighting: regions, their effects and their brightness.

use vstd::prelude::*;

use crate::driver::devices::{is_task, RazerDevice};
use crate::driver::protocol::{Report, RequestTask};

verus! {

/// A part of a device that is lit on its own.
#[derive(Debug, Clone, Copy, PartialEq, Eq, Structural)]
pub struct LightingRegion {
    pub region_id: u8,
    pub matrix_x: u8,
    pub matrix_y: u8,
}

/// The number of regions for which a report has room.
pub const MAX_REGIONS: u8 = 16;

/// The region that a report describes at position `i`: five bytes, of which the second and the
/// third are not known.
pub open spec fn region_at(data: Seq<u8>, i: int) -> LightingRegion {
    LightingRegion {
        region_id: data[5 * i],
        matrix_x: data[5 * i + 3],
        matrix_y: data[5 * i + 4],
    }
}

/// The regions that a report describes.
pub open spec fn regions_of(report: Report) -> Seq<LightingRegion> {
    Seq::new((report.data_len / 5) as nat, |i: int| region_at(report.data@, i))
}

/// Asks for the lighting regions.
pub fn lighting_regions_request(device: &RazerDevice) -> (task: RequestTask)
    ensures
        is_task(task, *device, 0x0f, 0x80, 80, Seq::empty()),
{
    device.command(0x0f, 0x80, 80)
}

/// The lighting regions that the report describes.
pub fn get_lighting_regions(report: &Report) -> (regions: Vec<LightingRegion>)
    requires
        report.data_len / 5 <= MAX_REGIONS,
    ensures
        regions@ == regions_of(*report),
        regions@.len() == report.data_len / 5,
        forall|i: int|
            0 <= i < regions@.len() ==> {
                &&& (#[trigger] regions@[i]).region_id == report.data@[5 * i]
                &&& regions@[i].matrix_x == report.data@[5 * i + 3]
                &&& regions@[i].matrix_y == report.data@[5 * i + 4]
            },
{
    let region_count: usize = (report.data_len / 5) as usize;
    let mut regions: Vec<LightingRegion> = Vec::with_capacity(region_count);
    let mut i: usize = 0;
    while i < region_count
        invariant
            i <= region_count <= 16,
            region_count == report.data_len / 5,
            regions.len() == i,
            forall|j: int| 0 <= j < i ==> regions[j] == region_at(report.data@, j),
        decreases region_count - i,
    {
        let region_id: u8 = report.data[i * 5];
        let matrix_x: u8 = report.data[i * 5 + 3];
        let matrix_y: u8 = report.data[i * 5 + 4];
        regions.push(LightingRegion { region_id, matrix_x, matrix_y });
        i += 1;
    }
    assert(regions@ =~= regions_of(*report));
    regions
}

/// Asks for the effects that a region can show.
pub fn available_effects_request(device: &RazerDevice, region_id: u8) -> (task: RequestTask)
    ensures
        is_task(task, *device, 0x0f, 0x81, 80, seq![region_id]),
{
    let data: [u8; 1] = [region_id];
    assert(data@ =~= seq![region_id]);
    device.command_with(0x0f, 0x81, 80, data.as_slice())
}

/// The effects that a region can show.
pub fn get_available_effects(report: &Report) -> (effects: Vec<u8>)
    requires
        1 <= report.data_len <= 80,
    ensures
        effects@ == report.data@.subrange(1, report.data_len as int),
{
    let mut effects: Vec<u8> = Vec::new();
    let end: usize = report.data_len as usize;
    let mut i: usize = 1;
    while i < end
        invariant
            1 <= i <= end <= 80,
            effects@ == report.data@.subrange(1, i as int),
        decreases end - i,
    {
        effects.push(report.data[i]);
        i += 1;
        assert(effects@ =~= report.data@.subrange(1, i as int));
    }
    effects
}

/// Asks for the effect that a region shows.
pub fn effect_request(device: &RazerDevice, region_id: u8) -> (task: RequestTask)
    ensures
        is_task(task, *device, 0x0f, 0x82, 80, seq![0u8, region_id]),
{
    let data: [u8; 2] = [0x00, region_id];
    assert(data@ =~= seq![0u8, region_id]);
    device.command_with(0x0f, 0x82, 80, data.as_slice())
}

/// The effect that a region shows.
pub fn get_effect(report: &Report) -> (effect: u8)
    ensures
        effect == report.data@[2],
{
    report.data[2]
}

/// Asks a region to show an effect.
pub fn set_effect_request(device: &RazerDevice, region_id: u8, effect: u8) -> (task: RequestTask)
    ensures
        is_task(task, *device, 0x0f, 0x02, 80, seq![0u8, region_id, effect]),
{
    let data: [u8; 3] = [0x00, region_id, effect];
    assert(data@ =~= seq![0u8, region_id, effect]);
    device.command_with(0x0f, 0x02, 80, data.as_slice())
}

/// The effect that the device says it shows from now on.
pub fn set_effect(report: &Report) -> (effect: u8)
    ensures
        effect == report.data@[2],
{
    report.data[2]
}

/// Asks for the brightness of a region.
pub fn brightness_request(device: &RazerDevice, region_id: u8) -> (task: RequestTask)
    ensures
        is_task(task, *device, 0x0f, 0x84, 3, seq![0u8, region_id]),
{
    let data: [u8; 2] = [0x00, region_id];
    assert(data@ =~= seq![0u8, region_id]);
    device.command_with(0x0f, 0x84, 3, data.as_slice())
}

/// The brightness of a region.
pub fn get_brightness(report: &Report) -> (brightness: u8)
    ensures
        brightness == report.data@[2],
{
    report.data[2]
}

/// Asks a region to take on a brightness. The answer says nothing.
pub fn set_brightness(device: &RazerDevice, region_id: u8, value: u8) -> (task: RequestTask)
    ensures
        is_task(task, *device, 0x0f, 0x04, 3, seq![0u8, region_id, value]),
{
    let data: [u8; 3] = [0x00, region_id, value];
    assert(data@ =~= seq![0u8, region_id, value]);
    device.command_with(0x0f, 0x04, 3, data.as_slice())
}

/// A report describes a region in every five bytes that it counts: in the first of them its id, and
/// in the last two its size.
pub proof fn lemma_regions_described(report: Report, i: int)
    ensures
        regions_of(report).len() == report.data_len / 5,
        0 <= i < regions_of(report).len() ==> {
            &&& regions_of(report)[i].region_id == report.data@[5 * i]
            &&& regions_of(report)[i].matrix_x == report.data@[5 * i + 3]
            &&& regions_of(report)[i].matrix_y == report.data@[5 * i + 4]
        },
{
}

} // verus!
