//! The attribute files of a device: what their contents mean, and what is
//! written to them.
//!
//! Reading and writing the files is left to the caller. What was read of a
//! file comes in as bytes, and what is to be written goes out as the name of
//! an attribute and the bytes for it.

use crate::config::PowerProfile;
use crate::hw_mon::{FanMode, HwDirective, HwReadings};
use crate::identifier::{GpuIdentifier, PciAddress};
use crate::text::{
    decimal_text, digits_value, hex_of, i64_of, lemma_integer_round_trip,
    lemma_values_are_natural, parse_digits, parse_hex, parse_integer, render_integer, trim_end,
    trimmed, Radix,
};
use vstd::prelude::*;

verus! {

/// What was read of each attribute file of a device; `None` where a file
/// could not be read.
///
/// The temperature is in thousandths of a degree, the clocks are in hertz,
/// the duty cycle runs from 0 to 255, and the power cap and its bounds are in
/// the device's own units.
#[derive(Debug, PartialEq, Eq)]
pub struct AttributeFiles {
    pub temp1_input: Option<Vec<u8>>,
    pub freq1_input: Option<Vec<u8>>,
    pub freq2_input: Option<Vec<u8>>,
    pub gpu_busy_percent: Option<Vec<u8>>,
    pub pwm1: Option<Vec<u8>>,
    pub power1_cap: Option<Vec<u8>>,
    pub power1_cap_min: Option<Vec<u8>>,
    pub power1_cap_max: Option<Vec<u8>>,
    pub power_dpm_force_performance_level: Option<Vec<u8>>,
}

/// The attribute files of a device.
#[derive(Clone, Copy, Debug, PartialEq, Eq, Structural)]
pub enum Attribute {
    Temp1Input,
    Freq1Input,
    Freq2Input,
    GpuBusyPercent,
    Pwm1,
    Pwm1Enable,
    Power1Cap,
    Power1CapMin,
    Power1CapMax,
    PowerDpmForcePerformanceLevel,
    PpOdClkVoltage,
}

/// The name of an attribute's file.
pub open spec fn name_of(attribute: Attribute) -> Seq<char> {
    match attribute {
        Attribute::Temp1Input => "temp1_input"@,
        Attribute::Freq1Input => "freq1_input"@,
        Attribute::Freq2Input => "freq2_input"@,
        Attribute::GpuBusyPercent => "gpu_busy_percent"@,
        Attribute::Pwm1 => "pwm1"@,
        Attribute::Pwm1Enable => "pwm1_enable"@,
        Attribute::Power1Cap => "power1_cap"@,
        Attribute::Power1CapMin => "power1_cap_min"@,
        Attribute::Power1CapMax => "power1_cap_max"@,
        Attribute::PowerDpmForcePerformanceLevel => "power_dpm_force_performance_level"@,
        Attribute::PpOdClkVoltage => "pp_od_clk_voltage"@,
    }
}

/// Whether an attribute's file lies in the directory of the device's
/// sensors; the others lie in the directory of the device itself.
pub open spec fn is_sensor(attribute: Attribute) -> bool {
    match attribute {
        Attribute::GpuBusyPercent => false,
        Attribute::PowerDpmForcePerformanceLevel => false,
        Attribute::PpOdClkVoltage => false,
        _ => true,
    }
}

/// The name of an attribute's file.
pub fn file_name(attribute: Attribute) -> (r: &'static str)
    ensures
        r@ == name_of(attribute),
{
    match attribute {
        Attribute::Temp1Input => "temp1_input",
        Attribute::Freq1Input => "freq1_input",
        Attribute::Freq2Input => "freq2_input",
        Attribute::GpuBusyPercent => "gpu_busy_percent",
        Attribute::Pwm1 => "pwm1",
        Attribute::Pwm1Enable => "pwm1_enable",
        Attribute::Power1Cap => "power1_cap",
        Attribute::Power1CapMin => "power1_cap_min",
        Attribute::Power1CapMax => "power1_cap_max",
        Attribute::PowerDpmForcePerformanceLevel => "power_dpm_force_performance_level",
        Attribute::PpOdClkVoltage => "pp_od_clk_voltage",
    }
}

/// Whether an attribute's file lies in the directory of the device's
/// sensors.
pub fn in_sensor_directory(attribute: Attribute) -> (r: bool)
    ensures
        r == is_sensor(attribute),
{
    match attribute {
        Attribute::GpuBusyPercent => false,
        Attribute::PowerDpmForcePerformanceLevel => false,
        Attribute::PpOdClkVoltage => false,
        _ => true,
    }
}

/// `v` in units of `unit`, rounded towards zero.
pub open spec fn scaled(v: i64, unit: i64) -> i64 {
    if v >= 0 {
        (v as int / unit as int) as i64
    } else {
        (-((-(v as int)) / unit as int)) as i64
    }
}

/// The integer in a file.
pub open spec fn file_integer(file: Option<Vec<u8>>) -> Option<i64> {
    match file {
        Some(text) => i64_of(text@),
        None => None,
    }
}

/// The integer in a file, in units of `unit`.
pub open spec fn file_scaled(file: Option<Vec<u8>>, unit: i64) -> Option<i64> {
    match file_integer(file) {
        Some(v) => Some(scaled(v, unit)),
        None => None,
    }
}

/// The duty cycle in a file: an integer from 0 to 255.
pub open spec fn file_duty(file: Option<Vec<u8>>) -> Option<u8> {
    match file_integer(file) {
        Some(v) => if 0 <= v <= 255 {
            Some(v as u8)
        } else {
            None
        },
        None => None,
    }
}

/// The bytes of `auto`.
pub open spec fn auto_text() -> Seq<u8> {
    seq![0x61u8, 0x75u8, 0x74u8, 0x6fu8]
}

/// The bytes of `low`.
pub open spec fn low_text() -> Seq<u8> {
    seq![0x6cu8, 0x6fu8, 0x77u8]
}

/// The bytes of `high`.
pub open spec fn high_text() -> Seq<u8> {
    seq![0x68u8, 0x69u8, 0x67u8, 0x68u8]
}

/// The name of a profile as the selector takes it.
pub open spec fn profile_text(profile: PowerProfile) -> Seq<u8> {
    match profile {
        PowerProfile::Auto => auto_text(),
        PowerProfile::Low => low_text(),
        PowerProfile::High => high_text(),
    }
}

/// The profile that a text names, blanks at its end aside.
pub open spec fn profile_of(text: Seq<u8>) -> Option<PowerProfile> {
    let t = trimmed(text);
    if t == auto_text() {
        Some(PowerProfile::Auto)
    } else if t == low_text() {
        Some(PowerProfile::Low)
    } else if t == high_text() {
        Some(PowerProfile::High)
    } else {
        None
    }
}

/// The profile in a file.
pub open spec fn file_profile(file: Option<Vec<u8>>) -> Option<PowerProfile> {
    match file {
        Some(text) => profile_of(text@),
        None => None,
    }
}

/// The reading that the files of a device amount to.
pub open spec fn readings_of(files: AttributeFiles) -> HwReadings {
    HwReadings {
        temperature: file_scaled(files.temp1_input, 1_000),
        gpu_clock: file_scaled(files.freq1_input, 1_000_000),
        vram_clock: file_scaled(files.freq2_input, 1_000_000),
        utilization: file_integer(files.gpu_busy_percent),
        fan_duty: file_duty(files.pwm1),
        power_cap: file_integer(files.power1_cap),
        power_cap_min: file_integer(files.power1_cap_min),
        power_cap_max: file_integer(files.power1_cap_max),
        power_profile: file_profile(files.power_dpm_force_performance_level),
    }
}

/// The attribute that a directive is written to.
pub open spec fn attribute_of(d: HwDirective) -> Attribute {
    match d {
        HwDirective::SetFanMode(_) => Attribute::Pwm1Enable,
        HwDirective::SetFanDuty(_) => Attribute::Pwm1,
        HwDirective::SetPowerCap(_) => Attribute::Power1Cap,
        HwDirective::SetPowerProfile(_) => Attribute::PowerDpmForcePerformanceLevel,
        _ => Attribute::PpOdClkVoltage,
    }
}

/// What a directive writes.
///
/// The fan mode is `1` for manual and `2` for automatic. A core clock
/// ceiling is `s 1`, the clock and, where one is given, the voltage; a
/// memory clock ceiling is `m 1` and the clock; `c` commits and `r` resets.
/// The directives for the clocks end with a line feed.
pub open spec fn contents_of(d: HwDirective) -> Seq<u8> {
    match d {
        HwDirective::SetFanMode(FanMode::Manual) => seq![0x31u8],
        HwDirective::SetFanMode(FanMode::Automatic) => seq![0x32u8],
        HwDirective::SetFanDuty(duty) => decimal_text(duty as int),
        HwDirective::SetPowerCap(cap) => decimal_text(cap as int),
        HwDirective::SetPowerProfile(profile) => profile_text(profile),
        HwDirective::StageGpuMaxState(state) => seq![0x73u8, 0x20u8, 0x31u8, 0x20u8] + decimal_text(
            state.clockspeed as int,
        ) + (match state.voltage {
            Some(voltage) => seq![0x20u8] + decimal_text(voltage as int),
            None => Seq::empty(),
        }) + seq![0x0au8],
        HwDirective::StageVramMaxClock(clock) => seq![0x6du8, 0x20u8, 0x31u8, 0x20u8]
            + decimal_text(clock as int) + seq![0x0au8],
        HwDirective::CommitClocks => seq![0x63u8, 0x0au8],
        HwDirective::ResetClocks => seq![0x72u8, 0x0au8],
    }
}

/// The position on the bus that a text names: four hexadecimal digits for
/// the domain, two for the bus, two for the device and one for the function,
/// as in `0000:03:00.0`, blanks at the end aside.
pub open spec fn address_of(text: Seq<u8>) -> Option<PciAddress> {
    let t = trimmed(text);
    if t.len() == 12 && t[4] == 0x3a && t[7] == 0x3a && t[10] == 0x2e {
        let domain = digits_value(t.subrange(0, 4), Radix::Hex);
        let bus = digits_value(t.subrange(5, 7), Radix::Hex);
        let device = digits_value(t.subrange(8, 10), Radix::Hex);
        let function = digits_value(t.subrange(11, 12), Radix::Hex);
        if domain is Some && bus is Some && device is Some && function is Some && domain.unwrap()
            <= u32::MAX && bus.unwrap() <= u8::MAX && device.unwrap() <= u8::MAX
            && function.unwrap() <= u8::MAX {
            Some(
                PciAddress {
                    domain: domain.unwrap() as u32,
                    bus: bus.unwrap() as u8,
                    device: device.unwrap() as u8,
                    function: function.unwrap() as u8,
                },
            )
        } else {
            None
        }
    } else {
        None
    }
}

/// The 16-bit number that a text holds in hexadecimal.
pub open spec fn id_of(text: Seq<u8>) -> Option<u16> {
    match hex_of(text) {
        Some(v) => if v <= u16::MAX {
            Some(v as u16)
        } else {
            None
        },
        None => None,
    }
}

/// The identifier that a bus position and four files amount to.
pub open spec fn identifier_of(
    slot: Seq<u8>,
    vendor: Seq<u8>,
    device: Seq<u8>,
    subsystem_vendor: Seq<u8>,
    subsystem_device: Seq<u8>,
) -> Option<GpuIdentifier> {
    if address_of(slot) is Some && id_of(vendor) is Some && id_of(device) is Some && id_of(
        subsystem_vendor,
    ) is Some && id_of(subsystem_device) is Some {
        Some(
            GpuIdentifier {
                address: address_of(slot).unwrap(),
                vendor_id: id_of(vendor).unwrap(),
                device_id: id_of(device).unwrap(),
                subsystem_vendor_id: id_of(subsystem_vendor).unwrap(),
                subsystem_device_id: id_of(subsystem_device).unwrap(),
            },
        )
    } else {
        None
    }
}

/// `v` in units of `unit`.
fn scale_down(v: i64, unit: i64) -> (r: i64)
    requires
        unit > 0,
    ensures
        r == scaled(v, unit),
{
    if v >= 0 {
        v / unit
    } else {
        let magnitude: i128 = 0 - v as i128;
        let quotient: i128 = magnitude / unit as i128;
        (0 - quotient) as i64
    }
}

/// The integer in a file.
fn read_integer(file: &Option<Vec<u8>>) -> (r: Option<i64>)
    ensures
        r == file_integer(*file),
{
    match file {
        Some(text) => parse_integer(text.as_slice()),
        None => None,
    }
}

/// The integer in a file, in units of `unit`.
fn read_scaled(file: &Option<Vec<u8>>, unit: i64) -> (r: Option<i64>)
    requires
        unit > 0,
    ensures
        r == file_scaled(*file, unit),
{
    match read_integer(file) {
        Some(v) => Some(scale_down(v, unit)),
        None => None,
    }
}

/// Whether the first `n` bytes of `text` are the bytes of `word`.
fn starts_with_exactly(text: &[u8], n: usize, word: &Vec<u8>) -> (r: bool)
    requires
        n <= text@.len(),
    ensures
        r == (text@.subrange(0, n as int) == word@),
{
    if n != word.len() {
        return false;
    }
    let mut i: usize = 0;
    while i < n
        invariant
            i <= n,
            n == word@.len(),
            n <= text@.len(),
            forall|j: int| 0 <= j < i ==> text@[j] == word@[j],
        decreases n - i,
    {
        if text[i] != word[i] {
            assert(text@.subrange(0, n as int)[i as int] != word@[i as int]);
            return false;
        }
        i += 1;
    }
    assert(text@.subrange(0, n as int) =~= word@);
    true
}

/// The name of a profile as the selector takes it.
pub fn render_profile(profile: PowerProfile) -> (r: Vec<u8>)
    ensures
        r@ == profile_text(profile),
{
    let mut r: Vec<u8> = Vec::new();
    match profile {
        PowerProfile::Auto => {
            r.push(0x61);
            r.push(0x75);
            r.push(0x74);
            r.push(0x6f);
        },
        PowerProfile::Low => {
            r.push(0x6c);
            r.push(0x6f);
            r.push(0x77);
        },
        PowerProfile::High => {
            r.push(0x68);
            r.push(0x69);
            r.push(0x67);
            r.push(0x68);
        },
    }
    assert(r@ =~= profile_text(profile));
    r
}

/// The profile that a text names.
pub fn parse_profile(text: &[u8]) -> (r: Option<PowerProfile>)
    ensures
        r == profile_of(text@),
{
    let n = trim_end(text);
    if starts_with_exactly(text, n, &render_profile(PowerProfile::Auto)) {
        Some(PowerProfile::Auto)
    } else if starts_with_exactly(text, n, &render_profile(PowerProfile::Low)) {
        Some(PowerProfile::Low)
    } else if starts_with_exactly(text, n, &render_profile(PowerProfile::High)) {
        Some(PowerProfile::High)
    } else {
        None
    }
}

/// The reading that the files of a device amount to.
pub fn read_attributes(files: &AttributeFiles) -> (r: HwReadings)
    ensures
        r == readings_of(*files),
{
    let fan_duty = match read_integer(&files.pwm1) {
        Some(v) => {
            if 0 <= v && v <= 255 {
                Some(v as u8)
            } else {
                None
            }
        },
        None => None,
    };
    let power_profile = match &files.power_dpm_force_performance_level {
        Some(text) => parse_profile(text.as_slice()),
        None => None,
    };
    HwReadings {
        temperature: read_scaled(&files.temp1_input, 1_000),
        gpu_clock: read_scaled(&files.freq1_input, 1_000_000),
        vram_clock: read_scaled(&files.freq2_input, 1_000_000),
        utilization: read_integer(&files.gpu_busy_percent),
        fan_duty,
        power_cap: read_integer(&files.power1_cap),
        power_cap_min: read_integer(&files.power1_cap_min),
        power_cap_max: read_integer(&files.power1_cap_max),
        power_profile,
    }
}

/// The attribute that a directive is written to.
pub fn attribute(d: &HwDirective) -> (r: Attribute)
    ensures
        r == attribute_of(*d),
{
    match d {
        HwDirective::SetFanMode(_) => Attribute::Pwm1Enable,
        HwDirective::SetFanDuty(_) => Attribute::Pwm1,
        HwDirective::SetPowerCap(_) => Attribute::Power1Cap,
        HwDirective::SetPowerProfile(_) => Attribute::PowerDpmForcePerformanceLevel,
        _ => Attribute::PpOdClkVoltage,
    }
}

/// A clock directive: the letter, ` 1 `, the numbers with a space between
/// them, and a line feed.
fn clock_line(letter: u8, clock: i64, voltage: Option<i64>) -> (r: Vec<u8>)
    ensures
        r@ == seq![letter, 0x20u8, 0x31u8, 0x20u8] + decimal_text(clock as int) + (match voltage {
            Some(voltage) => seq![0x20u8] + decimal_text(voltage as int),
            None => Seq::empty(),
        }) + seq![0x0au8],
{
    let mut r: Vec<u8> = Vec::new();
    r.push(letter);
    r.push(0x20);
    r.push(0x31);
    r.push(0x20);
    assert(r@ =~= seq![letter, 0x20u8, 0x31u8, 0x20u8]);
    let mut number = render_integer(clock);
    r.append(&mut number);
    match voltage {
        Some(v) => {
            r.push(0x20);
            let mut number = render_integer(v);
            r.append(&mut number);
            r.push(0x0a);
            assert(r@ =~= seq![letter, 0x20u8, 0x31u8, 0x20u8] + decimal_text(clock as int) + (
            seq![0x20u8] + decimal_text(v as int)) + seq![0x0au8]);
        },
        None => {
            r.push(0x0a);
            assert(r@ =~= seq![letter, 0x20u8, 0x31u8, 0x20u8] + decimal_text(clock as int)
                + Seq::<u8>::empty() + seq![0x0au8]);
        },
    }
    r
}

/// What a directive writes.
pub fn contents(d: &HwDirective) -> (r: Vec<u8>)
    ensures
        r@ == contents_of(*d),
{
    match d {
        HwDirective::SetFanMode(mode) => {
            let mut r: Vec<u8> = Vec::new();
            match mode {
                FanMode::Manual => {
                    r.push(0x31);
                    assert(r@ =~= seq![0x31u8]);
                },
                FanMode::Automatic => {
                    r.push(0x32);
                    assert(r@ =~= seq![0x32u8]);
                },
            }
            r
        },
        HwDirective::SetFanDuty(duty) => render_integer(*duty as i64),
        HwDirective::SetPowerCap(cap) => render_integer(*cap),
        HwDirective::SetPowerProfile(profile) => render_profile(*profile),
        HwDirective::StageGpuMaxState(state) => clock_line(0x73, state.clockspeed, state.voltage),
        HwDirective::StageVramMaxClock(clock) => {
            let r = clock_line(0x6d, *clock, None);
            assert(r@ =~= seq![0x6du8, 0x20u8, 0x31u8, 0x20u8] + decimal_text(*clock as int)
                + seq![0x0au8]);
            r
        },
        HwDirective::CommitClocks => {
            let mut r: Vec<u8> = Vec::new();
            r.push(0x63);
            r.push(0x0a);
            assert(r@ =~= seq![0x63u8, 0x0au8]);
            r
        },
        HwDirective::ResetClocks => {
            let mut r: Vec<u8> = Vec::new();
            r.push(0x72);
            r.push(0x0a);
            assert(r@ =~= seq![0x72u8, 0x0au8]);
            r
        },
    }
}

/// The hexadecimal number in the bytes from `from` up to `to`, where it is
/// no more than `max`.
fn field(text: &[u8], from: usize, to: usize, max: u32) -> (r: Option<u32>)
    requires
        from <= to <= text@.len(),
    ensures
        r == match digits_value(text@.subrange(from as int, to as int), Radix::Hex) {
            Some(v) => if v <= max {
                Some(v as u32)
            } else {
                None
            },
            None => None,
        },
{
    match parse_digits(text, from, to, Radix::Hex) {
        Some(v) => {
            if v <= max as u128 {
                Some(v as u32)
            } else {
                None
            }
        },
        None => None,
    }
}

/// The position on the bus that a text names.
pub fn parse_address(text: &[u8]) -> (r: Option<PciAddress>)
    ensures
        r == address_of(text@),
{
    let n = trim_end(text);
    if n != 12 || text[4] != 0x3a || text[7] != 0x3a || text[10] != 0x2e {
        proof {
            if n == 12 {
                assert(trimmed(text@)[4] == text@[4]);
                assert(trimmed(text@)[7] == text@[7]);
                assert(trimmed(text@)[10] == text@[10]);
            }
        }
        return None;
    }
    proof {
        let t = trimmed(text@);
        assert(t[4] == text@[4] && t[7] == text@[7] && t[10] == text@[10]);
        assert(t.subrange(0, 4) =~= text@.subrange(0, 4));
        assert(t.subrange(5, 7) =~= text@.subrange(5, 7));
        assert(t.subrange(8, 10) =~= text@.subrange(8, 10));
        assert(t.subrange(11, 12) =~= text@.subrange(11, 12));
        lemma_values_are_natural(text@.subrange(0, 4), Radix::Hex);
        lemma_values_are_natural(text@.subrange(5, 7), Radix::Hex);
        lemma_values_are_natural(text@.subrange(8, 10), Radix::Hex);
        lemma_values_are_natural(text@.subrange(11, 12), Radix::Hex);
    }
    let domain = field(text, 0, 4, u32::MAX);
    let bus = field(text, 5, 7, 0xff);
    let device = field(text, 8, 10, 0xff);
    let function = field(text, 11, 12, 0xff);
    match (domain, bus, device, function) {
        (Some(domain), Some(bus), Some(device), Some(function)) => Some(
            PciAddress { domain, bus: bus as u8, device: device as u8, function: function as u8 },
        ),
        _ => None,
    }
}

/// The 16-bit number that a text holds in hexadecimal.
pub fn parse_id(text: &[u8]) -> (r: Option<u16>)
    ensures
        r == id_of(text@),
{
    proof {
        lemma_values_are_natural(text@, Radix::Hex);
    }
    match parse_hex(text) {
        Some(v) => {
            if v <= 0xffff {
                Some(v as u16)
            } else {
                None
            }
        },
        None => None,
    }
}

/// The identifier of a device, from the name of its slot on the bus and the
/// contents of its four identity files.
pub fn identify(
    slot: &[u8],
    vendor: &[u8],
    device: &[u8],
    subsystem_vendor: &[u8],
    subsystem_device: &[u8],
) -> (r: Option<GpuIdentifier>)
    ensures
        r == identifier_of(slot@, vendor@, device@, subsystem_vendor@, subsystem_device@),
{
    match (
        parse_address(slot),
        parse_id(vendor),
        parse_id(device),
        parse_id(subsystem_vendor),
        parse_id(subsystem_device),
    ) {
        (
            Some(address),
            Some(vendor_id),
            Some(device_id),
            Some(subsystem_vendor_id),
            Some(subsystem_device_id),
        ) => Some(
            GpuIdentifier {
                address,
                vendor_id,
                device_id,
                subsystem_vendor_id,
                subsystem_device_id,
            },
        ),
        _ => None,
    }
}

/// What is written for a power cap, a duty cycle or a profile reads back as
/// the value that was written.
pub proof fn lemma_written_reads_back(cap: i64, duty: u8, profile: PowerProfile)
    ensures
        i64_of(contents_of(HwDirective::SetPowerCap(cap))) == Some(cap),
        i64_of(contents_of(HwDirective::SetFanDuty(duty))) == Some(duty as i64),
        profile_of(contents_of(HwDirective::SetPowerProfile(profile))) == Some(profile),
{
    lemma_integer_round_trip(cap as int);
    lemma_integer_round_trip(duty as int);
    let t = profile_text(profile);
    assert(trimmed(t) =~= t);
    assert(auto_text()[0] != low_text()[0]);
    assert(auto_text()[0] != high_text()[0]);
    assert(low_text().len() != high_text().len());
}

} // verus!
