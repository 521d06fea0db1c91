//! The boundary to a device's attribute tree.
//!
//! Nothing here reads or writes a file. What was read arrives as
//! `HwReadings`; what is to be written leaves as `HwDirective`s, in the order
//! in which they are to be performed. `HwState` says what a device makes of
//! the directives, and stands in for a device wherever none is at hand.

use crate::config::{MaxPowerState, PowerProfile};
use vstd::prelude::*;

verus! {

/// Who sets the fan's duty cycle: the firmware, or whoever writes it.
#[derive(Clone, Copy, Debug, PartialEq, Eq, Structural)]
pub enum FanMode {
    Automatic,
    Manual,
}

/// One reading of each attribute of a device. `None` stands for an attribute
/// that could not be read.
#[derive(Clone, Copy, Debug, PartialEq, Eq)]
pub struct HwReadings {
    pub temperature: Option<i64>,
    pub gpu_clock: Option<i64>,
    pub vram_clock: Option<i64>,
    pub utilization: Option<i64>,
    pub fan_duty: Option<u8>,
    pub power_cap: Option<i64>,
    pub power_cap_min: Option<i64>,
    pub power_cap_max: Option<i64>,
    pub power_profile: Option<PowerProfile>,
}

impl HwReadings {
    /// The reading of a device of which nothing can be read.
    pub open spec fn nothing() -> HwReadings {
        HwReadings {
            temperature: None,
            gpu_clock: None,
            vram_clock: None,
            utilization: None,
            fan_duty: None,
            power_cap: None,
            power_cap_min: None,
            power_cap_max: None,
            power_profile: None,
        }
    }

    /// The reading of a device of which nothing can be read.
    pub fn unavailable() -> (r: HwReadings)
        ensures
            r == HwReadings::nothing(),
    {
        HwReadings {
            temperature: None,
            gpu_clock: None,
            vram_clock: None,
            utilization: None,
            fan_duty: None,
            power_cap: None,
            power_cap_min: None,
            power_cap_max: None,
            power_profile: None,
        }
    }
}

/// One write to a device's attribute tree.
///
/// The two `Stage` directives hand a clock edit to the device, which holds it
/// back until `CommitClocks`; `ResetClocks` drops what is held back and
/// returns the clocks to their defaults.
#[derive(Clone, Copy, Debug, PartialEq, Eq)]
pub enum HwDirective {
    SetFanMode(FanMode),
    SetFanDuty(u8),
    SetPowerCap(i64),
    SetPowerProfile(PowerProfile),
    StageGpuMaxState(MaxPowerState),
    StageVramMaxClock(i64),
    CommitClocks,
    ResetClocks,
}

/// The directives for one device, named by the number in the name of its
/// directory.
#[derive(Debug, PartialEq, Eq)]
pub struct DeviceDirectives {
    pub card: u32,
    pub directives: Vec<HwDirective>,
}

/// The directives for one device as plain values.
pub struct DeviceDirectivesView {
    pub card: u32,
    pub directives: Seq<HwDirective>,
}

impl View for DeviceDirectives {
    type V = DeviceDirectivesView;

    open spec fn view(&self) -> DeviceDirectivesView {
        DeviceDirectivesView { card: self.card, directives: self.directives@ }
    }
}

/// The views of a vector of per-device directives.
pub open spec fn directive_views(v: Seq<DeviceDirectives>) -> Seq<DeviceDirectivesView> {
    v.map_values(|d: DeviceDirectives| d@)
}

/// The clock ceilings of a device.
#[derive(Clone, Copy, Debug, PartialEq, Eq)]
pub struct ClockState {
    pub gpu_max: MaxPowerState,
    pub vram_max: i64,
}

/// The attribute tree of one device.
#[derive(Clone, Copy, Debug, PartialEq, Eq)]
pub struct HwState {
    pub temperature: i64,
    pub gpu_clock: i64,
    pub vram_clock: i64,
    pub utilization: i64,
    pub fan_mode: FanMode,
    pub fan_duty: u8,
    pub power_cap: i64,
    pub power_cap_min: i64,
    pub power_cap_max: i64,
    pub power_profile: PowerProfile,
    /// The clocks the device returns to on a reset.
    pub default_clocks: ClockState,
    /// The clocks in force.
    pub applied_clocks: ClockState,
    /// Clock edits handed over and not yet committed.
    pub staged_gpu_max: Option<MaxPowerState>,
    pub staged_vram_max: Option<i64>,
}

impl HwState {
    /// The device after one directive.
    pub open spec fn perform(self, d: HwDirective) -> HwState {
        match d {
            HwDirective::SetFanMode(mode) => HwState { fan_mode: mode, ..self },
            HwDirective::SetFanDuty(duty) => HwState { fan_duty: duty, ..self },
            HwDirective::SetPowerCap(cap) => HwState { power_cap: cap, ..self },
            HwDirective::SetPowerProfile(profile) => HwState { power_profile: profile, ..self },
            HwDirective::StageGpuMaxState(state) => HwState {
                staged_gpu_max: Some(state),
                ..self
            },
            HwDirective::StageVramMaxClock(clock) => HwState {
                staged_vram_max: Some(clock),
                ..self
            },
            HwDirective::CommitClocks => HwState {
                applied_clocks: ClockState {
                    gpu_max: match self.staged_gpu_max {
                        Some(state) => state,
                        None => self.applied_clocks.gpu_max,
                    },
                    vram_max: match self.staged_vram_max {
                        Some(clock) => clock,
                        None => self.applied_clocks.vram_max,
                    },
                },
                staged_gpu_max: None,
                staged_vram_max: None,
                ..self
            },
            HwDirective::ResetClocks => HwState {
                applied_clocks: self.default_clocks,
                staged_gpu_max: None,
                staged_vram_max: None,
                ..self
            },
        }
    }

    /// The device after a run of directives, performed first to last.
    pub open spec fn perform_all(self, ds: Seq<HwDirective>) -> HwState
        decreases ds.len(),
    {
        if ds.len() == 0 {
            self
        } else {
            self.perform_all(ds.drop_last()).perform(ds.last())
        }
    }

    /// What reading the device's attributes gives.
    pub open spec fn readings(self) -> HwReadings {
        HwReadings {
            temperature: Some(self.temperature),
            gpu_clock: Some(self.gpu_clock),
            vram_clock: Some(self.vram_clock),
            utilization: Some(self.utilization),
            fan_duty: Some(self.fan_duty),
            power_cap: Some(self.power_cap),
            power_cap_min: Some(self.power_cap_min),
            power_cap_max: Some(self.power_cap_max),
            power_profile: Some(self.power_profile),
        }
    }

    /// Performs one directive.
    pub fn apply(&mut self, d: HwDirective)
        ensures
            *final(self) == old(self).perform(d),
    {
        match d {
            HwDirective::SetFanMode(mode) => {
                self.fan_mode = mode;
            },
            HwDirective::SetFanDuty(duty) => {
                self.fan_duty = duty;
            },
            HwDirective::SetPowerCap(cap) => {
                self.power_cap = cap;
            },
            HwDirective::SetPowerProfile(profile) => {
                self.power_profile = profile;
            },
            HwDirective::StageGpuMaxState(state) => {
                self.staged_gpu_max = Some(state);
            },
            HwDirective::StageVramMaxClock(clock) => {
                self.staged_vram_max = Some(clock);
            },
            HwDirective::CommitClocks => {
                match self.staged_gpu_max {
                    Some(state) => {
                        self.applied_clocks.gpu_max = state;
                    },
                    None => {},
                }
                match self.staged_vram_max {
                    Some(clock) => {
                        self.applied_clocks.vram_max = clock;
                    },
                    None => {},
                }
                self.staged_gpu_max = None;
                self.staged_vram_max = None;
            },
            HwDirective::ResetClocks => {
                self.applied_clocks = self.default_clocks;
                self.staged_gpu_max = None;
                self.staged_vram_max = None;
            },
        }
    }

    /// Performs a run of directives, first to last.
    pub fn apply_all(&mut self, ds: &Vec<HwDirective>)
        ensures
            *final(self) == old(self).perform_all(ds@),
    {
        let mut i: usize = 0;
        while i < ds.len()
            invariant
                i <= ds.len(),
                *self == old(self).perform_all(ds@.subrange(0, i as int)),
            decreases ds.len() - i,
        {
            proof {
                let upto = ds@.subrange(0, i as int + 1);
                assert(upto.drop_last() == ds@.subrange(0, i as int));
                assert(upto.last() == ds@[i as int]);
            }
            self.apply(ds[i]);
            i += 1;
        }
        proof {
            assert(ds@.subrange(0, i as int) == ds@);
        }
    }

    /// Reads every attribute.
    pub fn read(&self) -> (r: HwReadings)
        ensures
            r == self.readings(),
    {
        HwReadings {
            temperature: Some(self.temperature),
            gpu_clock: Some(self.gpu_clock),
            vram_clock: Some(self.vram_clock),
            utilization: Some(self.utilization),
            fan_duty: Some(self.fan_duty),
            power_cap: Some(self.power_cap),
            power_cap_min: Some(self.power_cap_min),
            power_cap_max: Some(self.power_cap_max),
            power_profile: Some(self.power_profile),
        }
    }
}

} // verus!
