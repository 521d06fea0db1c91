//! The controller of one device: its settings, its fan loop and its clock
//! edits.
//!
//! A controller decides; it does not write. An operation that wants the
//! hardware changed returns the directives that change it, and the
//! controller's own state is then the state that holds once the directives
//! have been performed.

use crate::config::{GpuConfig, GpuConfigView, MaxPowerState, PowerProfile};
use crate::fan_curve::{
    curve_of, duty, duty_of, speed_at, within_full_speed, CurvePoint, FanCurve,
};
use crate::hw_mon::{FanMode, HwDirective, HwReadings, HwState};
use crate::identifier::GpuIdentifier;
use vstd::prelude::*;

verus! {

/// Why a controller refuses an operation.
#[derive(Clone, Copy, Debug, PartialEq, Eq, Structural)]
pub enum GpuControllerError {
    /// An attribute that the operation needs could not be read.
    HwMon,
    /// A value lies outside what the hardware or the rules allow.
    OutOfRange,
    /// The hardware has no such setting.
    Unsupported,
    /// The points given make no fan curve.
    MalformedCurve,
}

/// The names under which a device is shown.
#[derive(Debug, PartialEq, Eq)]
pub struct VendorData {
    pub gpu_vendor: Option<String>,
    pub gpu_model: Option<String>,
    pub card_vendor: Option<String>,
    pub card_model: Option<String>,
}

/// A copy of a name.
pub fn copy_name(name: &Option<String>) -> (r: Option<String>)
    ensures
        r == *name,
{
    match name {
        Some(s) => Some(s.clone()),
        None => None,
    }
}

impl Clone for VendorData {
    fn clone(&self) -> (r: Self)
        ensures
            r == *self,
    {
        VendorData {
            gpu_vendor: copy_name(&self.gpu_vendor),
            gpu_model: copy_name(&self.gpu_model),
            card_vendor: copy_name(&self.card_vendor),
            card_model: copy_name(&self.card_model),
        }
    }
}

/// What does not change about a device while the service runs.
#[derive(Debug, PartialEq, Eq)]
pub struct GpuInfo {
    pub identifier: GpuIdentifier,
    pub vendor_data: VendorData,
}

impl Clone for GpuInfo {
    fn clone(&self) -> (r: Self)
        ensures
            r == *self,
    {
        GpuInfo { identifier: self.identifier, vendor_data: self.vendor_data.clone() }
    }
}

/// The telemetry of a device at one moment.
#[derive(Clone, Copy, Debug, PartialEq, Eq)]
pub struct GpuStats {
    pub temperature: i64,
    pub gpu_clock: i64,
    pub vram_clock: i64,
    pub utilization: i64,
    pub fan_duty: Option<u8>,
    pub power_cap: Option<i64>,
}

/// The telemetry that a reading holds. Temperature, the two clocks and the
/// utilization must all have been read.
pub open spec fn stats_of(r: HwReadings) -> Option<GpuStats> {
    if r.temperature is Some && r.gpu_clock is Some && r.vram_clock is Some && r.utilization
        is Some {
        Some(
            GpuStats {
                temperature: r.temperature.unwrap(),
                gpu_clock: r.gpu_clock.unwrap(),
                vram_clock: r.vram_clock.unwrap(),
                utilization: r.utilization.unwrap(),
                fan_duty: r.fan_duty,
                power_cap: r.power_cap,
            },
        )
    } else {
        None
    }
}

/// The state of a device's fan control.
#[derive(Debug, PartialEq, Eq)]
pub struct FanControlInfo {
    pub enabled: bool,
    pub curve: FanCurve,
    /// The duty cycle that the fan runs at.
    pub duty: u8,
    /// How often the loop could not read the temperature or write the duty
    /// cycle since it was started.
    pub faults: u32,
}

/// The state of a device's fan control as plain values.
pub struct FanControlInfoView {
    pub enabled: bool,
    pub curve: Seq<CurvePoint>,
    pub duty: u8,
    pub faults: u32,
}

impl View for FanControlInfo {
    type V = FanControlInfoView;

    open spec fn view(&self) -> FanControlInfoView {
        FanControlInfoView {
            enabled: self.enabled,
            curve: self.curve@,
            duty: self.duty,
            faults: self.faults,
        }
    }
}

/// A controller as plain values.
pub struct GpuControllerView {
    pub card: u32,
    pub info: GpuInfo,
    pub config: GpuConfigView,
    pub fan_control_running: bool,
    pub fan_faults: u32,
}

/// What an operation decides: the controller's next state and the directives
/// that bring the hardware there.
pub struct Plan {
    pub next: GpuControllerView,
    pub directives: Seq<HwDirective>,
}

/// Whether a clock or a voltage is one that can be staged: it must be
/// positive.
pub open spec fn stageable(value: i64) -> bool {
    value > 0
}

/// Whether a clock ceiling can be staged.
pub open spec fn stageable_state(state: MaxPowerState) -> bool {
    stageable(state.clockspeed) && (state.voltage is Some ==> stageable(state.voltage.unwrap()))
}

/// The directives that hand the staged edits of `config` to the device and
/// put them in force; none where nothing is staged.
pub open spec fn commit_directives(config: GpuConfigView) -> Seq<HwDirective> {
    if !config.has_staged_edits() {
        Seq::empty()
    } else {
        (match config.gpu_max_power_state {
            Some(state) => seq![HwDirective::StageGpuMaxState(state)],
            None => Seq::empty(),
        }) + (match config.vram_max_clock {
            Some(clock) => seq![HwDirective::StageVramMaxClock(clock)],
            None => Seq::empty(),
        }) + seq![HwDirective::CommitClocks]
    }
}

/// Whether a power cap lies below the lowest or above the highest that the
/// hardware reports, as far as the two could be read.
pub open spec fn out_of_bounds(cap: i64, r: HwReadings) -> bool {
    (r.power_cap_max is Some && cap > r.power_cap_max.unwrap()) || (r.power_cap_min is Some
        && cap < r.power_cap_min.unwrap())
}

impl GpuControllerView {
    /// A controller is valid when its settings are.
    pub open spec fn wf(self) -> bool {
        self.config.wf()
    }

    /// The device's fingerprint.
    pub open spec fn identifier(self) -> GpuIdentifier {
        self.info.identifier
    }

    /// The controller of a device that was just found, with the settings of
    /// a device seen for the first time.
    pub open spec fn fresh(card: u32, info: GpuInfo) -> GpuControllerView {
        GpuControllerView {
            card,
            info,
            config: GpuConfigView::fresh(),
            fan_control_running: false,
            fan_faults: 0,
        }
    }

    /// The controller with other settings.
    pub open spec fn with_config(self, config: GpuConfigView) -> GpuControllerView {
        GpuControllerView { config, ..self }
    }

    /// Takes over stored settings. The fan loop runs from then on if the
    /// settings say so, and the fan is then taken from the firmware.
    pub open spec fn load_config(self, config: GpuConfigView) -> Plan {
        Plan {
            next: GpuControllerView {
                config,
                fan_control_running: config.fan_control_enabled,
                fan_faults: 0,
                ..self
            },
            directives: if config.fan_control_enabled {
                seq![HwDirective::SetFanMode(FanMode::Manual)]
            } else {
                Seq::empty()
            },
        }
    }

    /// The fan control's state, which needs the fan's duty cycle.
    pub open spec fn get_fan_control(self, r: HwReadings) -> Result<
        FanControlInfoView,
        GpuControllerError,
    > {
        match r.fan_duty {
            Some(duty) => Ok(
                FanControlInfoView {
                    enabled: self.config.fan_control_enabled,
                    curve: self.config.fan_curve,
                    duty,
                    faults: self.fan_faults,
                },
            ),
            None => Err(GpuControllerError::HwMon),
        }
    }

    /// Starts the fan loop and takes the fan from the firmware.
    pub open spec fn start_fan_control(self) -> Plan {
        Plan {
            next: GpuControllerView {
                config: GpuConfigView { fan_control_enabled: true, ..self.config },
                fan_control_running: true,
                fan_faults: 0,
                ..self
            },
            directives: seq![HwDirective::SetFanMode(FanMode::Manual)],
        }
    }

    /// Stops the fan loop and hands the fan back to the firmware.
    pub open spec fn stop_fan_control(self) -> Plan {
        Plan {
            next: GpuControllerView {
                config: GpuConfigView { fan_control_enabled: false, ..self.config },
                fan_control_running: false,
                ..self
            },
            directives: seq![HwDirective::SetFanMode(FanMode::Automatic)],
        }
    }

    /// Replaces the fan curve by the curve of `points`, if they make one.
    pub open spec fn set_fan_curve(self, points: Seq<CurvePoint>) -> Result<
        GpuControllerView,
        GpuControllerError,
    > {
        if points.len() > 0 && within_full_speed(points) {
            Ok(self.with_config(GpuConfigView { fan_curve: curve_of(points), ..self.config }))
        } else {
            Err(GpuControllerError::MalformedCurve)
        }
    }

    /// The power cap in force and the highest the hardware takes.
    pub open spec fn get_power_cap(self, r: HwReadings) -> Result<(i64, i64), GpuControllerError> {
        if r.power_cap is Some && r.power_cap_max is Some {
            Ok((r.power_cap.unwrap(), r.power_cap_max.unwrap()))
        } else {
            Err(GpuControllerError::HwMon)
        }
    }

    /// Sets the power cap, which must lie within what the hardware reports as
    /// its lowest and highest. A cap beyond a bound that could be read is out
    /// of range whether or not the other bound could be read; a cap that no
    /// readable bound refuses needs both bounds.
    pub open spec fn set_power_cap(self, cap: i64, r: HwReadings) -> Result<
        Plan,
        GpuControllerError,
    > {
        if out_of_bounds(cap, r) {
            Err(GpuControllerError::OutOfRange)
        } else if r.power_cap_min is None || r.power_cap_max is None {
            Err(GpuControllerError::HwMon)
        } else {
            Ok(
                Plan {
                    next: self.with_config(GpuConfigView { power_cap: Some(cap), ..self.config }),
                    directives: seq![HwDirective::SetPowerCap(cap)],
                },
            )
        }
    }

    /// Sets the power profile, which the hardware must have a selector for.
    pub open spec fn set_power_profile(self, profile: PowerProfile, r: HwReadings) -> Result<
        Plan,
        GpuControllerError,
    > {
        if r.power_profile is None {
            Err(GpuControllerError::Unsupported)
        } else {
            Ok(
                Plan {
                    next: self.with_config(
                        GpuConfigView { power_profile: profile, ..self.config },
                    ),
                    directives: seq![HwDirective::SetPowerProfile(profile)],
                },
            )
        }
    }

    /// Stages a ceiling for the core clock. Nothing is written.
    pub open spec fn set_gpu_max_power_state(self, state: MaxPowerState) -> Result<
        GpuControllerView,
        GpuControllerError,
    > {
        if stageable_state(state) {
            Ok(
                self.with_config(
                    GpuConfigView { gpu_max_power_state: Some(state), ..self.config },
                ),
            )
        } else {
            Err(GpuControllerError::OutOfRange)
        }
    }

    /// Stages a ceiling for the memory clock. Nothing is written.
    pub open spec fn set_vram_max_clockspeed(self, clockspeed: i64) -> Result<
        GpuControllerView,
        GpuControllerError,
    > {
        if stageable(clockspeed) {
            Ok(self.with_config(GpuConfigView { vram_max_clock: Some(clockspeed), ..self.config }))
        } else {
            Err(GpuControllerError::OutOfRange)
        }
    }

    /// Puts the staged edits in force and forgets them.
    pub open spec fn commit_gpu_power_states(self) -> Plan {
        Plan {
            next: self.with_config(
                GpuConfigView { gpu_max_power_state: None, vram_max_clock: None, ..self.config },
            ),
            directives: commit_directives(self.config),
        }
    }

    /// Forgets the staged edits and returns the clocks to their defaults.
    pub open spec fn reset_gpu_power_states(self) -> Plan {
        Plan {
            next: self.with_config(
                GpuConfigView { gpu_max_power_state: None, vram_max_clock: None, ..self.config },
            ),
            directives: seq![HwDirective::ResetClocks],
        }
    }

    /// One more fault of the fan loop; the count stops at the largest number.
    pub open spec fn fan_fault(self) -> GpuControllerView {
        GpuControllerView {
            fan_faults: if self.fan_faults < u32::MAX {
                (self.fan_faults + 1) as u32
            } else {
                self.fan_faults
            },
            ..self
        }
    }

    /// One turn of the fan loop. A running loop that has a temperature asks
    /// for the duty cycle that the curve gives; one that has none counts a
    /// fault and goes on. A loop that does not run does nothing.
    pub open spec fn fan_control_tick(self, temperature: Option<i64>) -> (
        GpuControllerView,
        Option<HwDirective>,
    ) {
        if !self.fan_control_running {
            (self, None)
        } else {
            match temperature {
                Some(t) => (
                    self,
                    Some(
                        HwDirective::SetFanDuty(
                            duty_of(speed_at(self.config.fan_curve, t as int)) as u8,
                        ),
                    ),
                ),
                None => (self.fan_fault(), None),
            }
        }
    }

    /// Returns the device to its defaults: clock edits dropped and clocks
    /// reset, the power profile automatic, and the fan handed back to the
    /// firmware if the settings had fan control enabled.
    pub open spec fn shutdown(self) -> Plan {
        let reset = self.reset_gpu_power_states();
        let commit = reset.next.commit_gpu_power_states();
        let profile = Plan {
            next: commit.next.with_config(
                GpuConfigView { power_profile: PowerProfile::Auto, ..commit.next.config },
            ),
            directives: seq![HwDirective::SetPowerProfile(PowerProfile::Auto)],
        };
        let fan = if self.config.fan_control_enabled {
            profile.next.stop_fan_control()
        } else {
            Plan { next: profile.next, directives: Seq::empty() }
        };
        Plan {
            next: fan.next,
            directives: reset.directives + commit.directives + profile.directives
                + fan.directives,
        }
    }
}

/// The controller of one device.
#[derive(Debug, PartialEq, Eq)]
pub struct GpuController {
    card: u32,
    info: GpuInfo,
    config: GpuConfig,
    fan_control_running: bool,
    fan_faults: u32,
}

impl View for GpuController {
    type V = GpuControllerView;

    closed spec fn view(&self) -> GpuControllerView {
        GpuControllerView {
            card: self.card,
            info: self.info,
            config: self.config@,
            fan_control_running: self.fan_control_running,
            fan_faults: self.fan_faults,
        }
    }
}

impl Clone for GpuController {
    fn clone(&self) -> (r: Self)
        ensures
            r@ == self@,
    {
        GpuController {
            card: self.card,
            info: self.info.clone(),
            config: self.config.clone(),
            fan_control_running: self.fan_control_running,
            fan_faults: self.fan_faults,
        }
    }
}

/// A vector that holds one directive.
fn single(d: HwDirective) -> (r: Vec<HwDirective>)
    ensures
        r@ == seq![d],
{
    let mut v: Vec<HwDirective> = Vec::new();
    v.push(d);
    assert(v@ =~= seq![d]);
    v
}

impl GpuController {
    /// The invariant of the type.
    pub open spec fn wf(&self) -> bool {
        self@.wf()
    }

    /// A controller for the device in directory `card`, with no fan loop
    /// running.
    pub fn new(card: u32, info: GpuInfo, config: GpuConfig) -> (r: GpuController)
        requires
            config.wf(),
        ensures
            r@ == (GpuControllerView {
                card,
                info,
                config: config@,
                fan_control_running: false,
                fan_faults: 0,
            }),
            r.wf(),
    {
        GpuController { card, info, config, fan_control_running: false, fan_faults: 0 }
    }

    /// The number in the name of the device's directory.
    pub fn card(&self) -> (r: u32)
        ensures
            r == self@.card,
    {
        self.card
    }

    /// The device's fingerprint.
    pub fn get_identifier(&self) -> (r: GpuIdentifier)
        ensures
            r == self@.identifier(),
    {
        self.info.identifier
    }

    /// A copy of the settings.
    pub fn get_config(&self) -> (r: GpuConfig)
        ensures
            r@ == self@.config,
    {
        self.config.clone()
    }

    /// What does not change about the device.
    pub fn get_info(&self) -> (r: &GpuInfo)
        ensures
            *r == self@.info,
    {
        &self.info
    }

    /// Whether the fan loop runs.
    pub fn is_fan_control_running(&self) -> (r: bool)
        ensures
            r == self@.fan_control_running,
    {
        self.fan_control_running
    }

    /// Takes over stored settings.
    pub fn load_config(&mut self, config: &GpuConfig) -> (directives: Vec<HwDirective>)
        requires
            config.wf(),
        ensures
            old(self)@.load_config(config@) == (Plan { next: final(self)@, directives: directives@ }),
            final(self).wf(),
    {
        self.config = config.clone();
        self.fan_control_running = self.config.fan_control_enabled;
        self.fan_faults = 0;
        if self.config.fan_control_enabled {
            single(HwDirective::SetFanMode(FanMode::Manual))
        } else {
            Vec::new()
        }
    }

    /// The telemetry in `readings`.
    pub fn get_stats(&self, readings: &HwReadings) -> (r: Result<GpuStats, GpuControllerError>)
        ensures
            match r {
                Ok(stats) => stats_of(*readings) == Some(stats),
                Err(e) => stats_of(*readings) is None && e == GpuControllerError::HwMon,
            },
    {
        match (readings.temperature, readings.gpu_clock, readings.vram_clock, readings.utilization) {
            (Some(temperature), Some(gpu_clock), Some(vram_clock), Some(utilization)) => Ok(
                GpuStats {
                    temperature,
                    gpu_clock,
                    vram_clock,
                    utilization,
                    fan_duty: readings.fan_duty,
                    power_cap: readings.power_cap,
                },
            ),
            _ => Err(GpuControllerError::HwMon),
        }
    }

    /// The state of the fan control.
    pub fn get_fan_control(&self, readings: &HwReadings) -> (r: Result<
        FanControlInfo,
        GpuControllerError,
    >)
        ensures
            match r {
                Ok(info) => self@.get_fan_control(*readings) == Ok::<
                    FanControlInfoView,
                    GpuControllerError,
                >(info@),
                Err(e) => self@.get_fan_control(*readings) == Err::<
                    FanControlInfoView,
                    GpuControllerError,
                >(e),
            },
    {
        match readings.fan_duty {
            Some(duty) => Ok(
                FanControlInfo {
                    enabled: self.config.fan_control_enabled,
                    curve: self.config.fan_curve.clone(),
                    duty,
                    faults: self.fan_faults,
                },
            ),
            None => Err(GpuControllerError::HwMon),
        }
    }

    /// Starts the fan loop.
    pub fn start_fan_control(&mut self) -> (directives: Vec<HwDirective>)
        requires
            old(self).wf(),
        ensures
            old(self)@.start_fan_control() == (Plan {
                next: final(self)@,
                directives: directives@,
            }),
            final(self).wf(),
    {
        self.config.fan_control_enabled = true;
        self.fan_control_running = true;
        self.fan_faults = 0;
        single(HwDirective::SetFanMode(FanMode::Manual))
    }

    /// Stops the fan loop.
    pub fn stop_fan_control(&mut self) -> (directives: Vec<HwDirective>)
        requires
            old(self).wf(),
        ensures
            old(self)@.stop_fan_control() == (Plan {
                next: final(self)@,
                directives: directives@,
            }),
            final(self).wf(),
    {
        self.config.fan_control_enabled = false;
        self.fan_control_running = false;
        single(HwDirective::SetFanMode(FanMode::Automatic))
    }

    /// Replaces the fan curve. Points that make no curve are refused and
    /// change nothing.
    pub fn set_fan_curve(&mut self, points: &Vec<CurvePoint>) -> (r: Result<
        (),
        GpuControllerError,
    >)
        requires
            old(self).wf(),
        ensures
            match r {
                Ok(()) => old(self)@.set_fan_curve(points@) == Ok::<
                    GpuControllerView,
                    GpuControllerError,
                >(final(self)@),
                Err(e) => old(self)@.set_fan_curve(points@) == Err::<
                    GpuControllerView,
                    GpuControllerError,
                >(e) && final(self)@ == old(self)@,
            },
            final(self).wf(),
    {
        match FanCurve::from_points(points) {
            Some(curve) => {
                self.config.fan_curve = curve;
                Ok(())
            },
            None => Err(GpuControllerError::MalformedCurve),
        }
    }

    /// The power cap in force and the highest the hardware takes.
    pub fn get_power_cap(&self, readings: &HwReadings) -> (r: Result<
        (i64, i64),
        GpuControllerError,
    >)
        ensures
            r == self@.get_power_cap(*readings),
    {
        match (readings.power_cap, readings.power_cap_max) {
            (Some(cap), Some(max)) => Ok((cap, max)),
            _ => Err(GpuControllerError::HwMon),
        }
    }

    /// Sets the power cap. A cap outside the hardware's bounds is refused
    /// and changes nothing.
    pub fn set_power_cap(&mut self, cap: i64, readings: &HwReadings) -> (r: Result<
        Vec<HwDirective>,
        GpuControllerError,
    >)
        requires
            old(self).wf(),
        ensures
            match r {
                Ok(directives) => old(self)@.set_power_cap(cap, *readings) == Ok::<
                    Plan,
                    GpuControllerError,
                >(Plan { next: final(self)@, directives: directives@ }),
                Err(e) => old(self)@.set_power_cap(cap, *readings) == Err::<
                    Plan,
                    GpuControllerError,
                >(e) && final(self)@ == old(self)@,
            },
            final(self).wf(),
    {
        let above = match readings.power_cap_max {
            Some(max) => cap > max,
            None => false,
        };
        let below = match readings.power_cap_min {
            Some(min) => cap < min,
            None => false,
        };
        if above || below {
            return Err(GpuControllerError::OutOfRange);
        }
        match (readings.power_cap_min, readings.power_cap_max) {
            (Some(_), Some(_)) => {
                self.config.power_cap = Some(cap);
                Ok(single(HwDirective::SetPowerCap(cap)))
            },
            _ => Err(GpuControllerError::HwMon),
        }
    }

    /// Sets the power profile. Hardware without a profile selector refuses
    /// every profile.
    pub fn set_power_profile(&mut self, profile: PowerProfile, readings: &HwReadings) -> (r:
        Result<Vec<HwDirective>, GpuControllerError>)
        requires
            old(self).wf(),
        ensures
            match r {
                Ok(directives) => old(self)@.set_power_profile(profile, *readings) == Ok::<
                    Plan,
                    GpuControllerError,
                >(Plan { next: final(self)@, directives: directives@ }),
                Err(e) => old(self)@.set_power_profile(profile, *readings) == Err::<
                    Plan,
                    GpuControllerError,
                >(e) && final(self)@ == old(self)@,
            },
            final(self).wf(),
    {
        match readings.power_profile {
            Some(_) => {
                self.config.power_profile = profile;
                Ok(single(HwDirective::SetPowerProfile(profile)))
            },
            None => Err(GpuControllerError::Unsupported),
        }
    }

    /// Stages a ceiling for the core clock.
    pub fn set_gpu_max_power_state(&mut self, clockspeed: i64, voltage: Option<i64>) -> (r:
        Result<(), GpuControllerError>)
        requires
            old(self).wf(),
        ensures
            match r {
                Ok(()) => old(self)@.set_gpu_max_power_state(MaxPowerState { clockspeed, voltage })
                    == Ok::<GpuControllerView, GpuControllerError>(final(self)@),
                Err(e) => old(self)@.set_gpu_max_power_state(MaxPowerState { clockspeed, voltage })
                    == Err::<GpuControllerView, GpuControllerError>(e) && final(self)@ == old(
                    self,
                )@,
            },
            final(self).wf(),
    {
        let voltage_ok = match voltage {
            Some(v) => v > 0,
            None => true,
        };
        if clockspeed > 0 && voltage_ok {
            self.config.gpu_max_power_state = Some(MaxPowerState { clockspeed, voltage });
            Ok(())
        } else {
            Err(GpuControllerError::OutOfRange)
        }
    }

    /// Stages a ceiling for the memory clock.
    pub fn set_vram_max_clockspeed(&mut self, clockspeed: i64) -> (r: Result<
        (),
        GpuControllerError,
    >)
        requires
            old(self).wf(),
        ensures
            match r {
                Ok(()) => old(self)@.set_vram_max_clockspeed(clockspeed) == Ok::<
                    GpuControllerView,
                    GpuControllerError,
                >(final(self)@),
                Err(e) => old(self)@.set_vram_max_clockspeed(clockspeed) == Err::<
                    GpuControllerView,
                    GpuControllerError,
                >(e) && final(self)@ == old(self)@,
            },
            final(self).wf(),
    {
        if clockspeed > 0 {
            self.config.vram_max_clock = Some(clockspeed);
            Ok(())
        } else {
            Err(GpuControllerError::OutOfRange)
        }
    }

    /// Puts the staged edits in force.
    pub fn commit_gpu_power_states(&mut self) -> (directives: Vec<HwDirective>)
        requires
            old(self).wf(),
        ensures
            old(self)@.commit_gpu_power_states() == (Plan {
                next: final(self)@,
                directives: directives@,
            }),
            final(self).wf(),
    {
        let mut directives: Vec<HwDirective> = Vec::new();
        let mut staged = false;
        match self.config.gpu_max_power_state {
            Some(state) => {
                directives.push(HwDirective::StageGpuMaxState(state));
                staged = true;
            },
            None => {},
        }
        match self.config.vram_max_clock {
            Some(clock) => {
                directives.push(HwDirective::StageVramMaxClock(clock));
                staged = true;
            },
            None => {},
        }
        if staged {
            directives.push(HwDirective::CommitClocks);
        }
        assert(directives@ =~= commit_directives(self@.config));
        self.config.gpu_max_power_state = None;
        self.config.vram_max_clock = None;
        directives
    }

    /// Drops the staged edits and returns the clocks to their defaults.
    pub fn reset_gpu_power_states(&mut self) -> (directives: Vec<HwDirective>)
        requires
            old(self).wf(),
        ensures
            old(self)@.reset_gpu_power_states() == (Plan {
                next: final(self)@,
                directives: directives@,
            }),
            final(self).wf(),
    {
        self.config.gpu_max_power_state = None;
        self.config.vram_max_clock = None;
        single(HwDirective::ResetClocks)
    }

    /// Counts a fault of the fan loop: a duty cycle that could not be
    /// written.
    pub fn fan_write_failed(&mut self)
        ensures
            final(self)@ == old(self)@.fan_fault(),
    {
        if self.fan_faults < u32::MAX {
            self.fan_faults = self.fan_faults + 1;
        }
    }

    /// One turn of the fan loop, given the temperature if it could be read.
    pub fn fan_control_tick(&mut self, temperature: Option<i64>) -> (directive: Option<
        HwDirective,
    >)
        requires
            old(self).wf(),
        ensures
            old(self)@.fan_control_tick(temperature) == (final(self)@, directive),
            final(self).wf(),
    {
        if !self.fan_control_running {
            return None;
        }
        match temperature {
            Some(t) => {
                let speed = self.config.fan_curve.evaluate(t);
                Some(HwDirective::SetFanDuty(duty(speed)))
            },
            None => {
                self.fan_write_failed();
                None
            },
        }
    }

    /// Returns the device to its defaults.
    pub fn shutdown(&mut self) -> (directives: Vec<HwDirective>)
        requires
            old(self).wf(),
        ensures
            old(self)@.shutdown() == (Plan { next: final(self)@, directives: directives@ }),
            final(self).wf(),
    {
        let enabled = self.config.fan_control_enabled;
        let mut directives = self.reset_gpu_power_states();
        let mut commit = self.commit_gpu_power_states();
        directives.append(&mut commit);
        self.config.power_profile = PowerProfile::Auto;
        directives.push(HwDirective::SetPowerProfile(PowerProfile::Auto));
        if enabled {
            let mut fan = self.stop_fan_control();
            directives.append(&mut fan);
        }
        assert(directives@ =~= old(self)@.shutdown().directives);
        directives
    }
}

/// The fan is under one hand at a time: starting the loop takes it from the
/// firmware, stopping the loop or shutting down hands it back, and only a
/// running loop ever asks for a duty cycle.
pub proof fn lemma_fan_has_one_master(c: GpuControllerView, hw: HwState, temperature: Option<i64>)
    ensures
        hw.perform_all(c.start_fan_control().directives).fan_mode == FanMode::Manual,
        c.start_fan_control().next.fan_control_running,
        hw.perform_all(c.stop_fan_control().directives).fan_mode == FanMode::Automatic,
        !c.stop_fan_control().next.fan_control_running,
        c.fan_control_tick(temperature).1 is Some ==> c.fan_control_running,
        c.config.fan_control_enabled ==> !c.shutdown().next.fan_control_running,
{
    let start = c.start_fan_control().directives;
    assert(start.drop_last() =~= Seq::<HwDirective>::empty());
    assert(hw.perform_all(start.drop_last()) == hw);
    let stop = c.stop_fan_control().directives;
    assert(stop.drop_last() =~= Seq::<HwDirective>::empty());
    assert(hw.perform_all(stop.drop_last()) == hw);
}

/// A clock edit that is staged and then dropped by a reset never comes into
/// force: no directive is issued for it but the reset, after which the device
/// runs at its default clocks. A device that ran at its defaults before the
/// edit was staged therefore runs at the clocks it had.
pub proof fn lemma_stage_then_reset(c: GpuControllerView, hw: HwState, state: MaxPowerState)
    requires
        stageable_state(state),
    ensures
        ({
            let staged = c.set_gpu_max_power_state(state).unwrap();
            let reset = staged.reset_gpu_power_states();
            let after = hw.perform_all(reset.directives);
            &&& c.set_gpu_max_power_state(state) is Ok
            &&& !reset.next.config.has_staged_edits()
            &&& after.applied_clocks == hw.default_clocks
            &&& hw.applied_clocks == hw.default_clocks ==> after.applied_clocks
                == hw.applied_clocks
            &&& after.staged_gpu_max is None && after.staged_vram_max is None
        }),
{
    let ds = seq![HwDirective::ResetClocks];
    assert(ds.drop_last() =~= Seq::<HwDirective>::empty());
    assert(hw.perform_all(ds.drop_last()) == hw);
    assert(hw.perform_all(ds) == hw.perform(HwDirective::ResetClocks));
}

/// The device after the directives of a commit: the staged edits are in
/// force, and nothing is held back.
pub proof fn lemma_commit_applies(config: GpuConfigView, hw: HwState)
    requires
        config.has_staged_edits(),
    ensures
        ({
            let after = hw.perform_all(commit_directives(config));
            &&& after.staged_gpu_max is None && after.staged_vram_max is None
            &&& config.gpu_max_power_state is Some ==> after.applied_clocks.gpu_max
                == config.gpu_max_power_state.unwrap()
            &&& config.vram_max_clock is Some ==> after.applied_clocks.vram_max
                == config.vram_max_clock.unwrap()
            &&& after.default_clocks == hw.default_clocks
        }),
{
    let ds = commit_directives(config);
    let d1 = ds.drop_last();
    assert(ds.last() == HwDirective::CommitClocks);
    if config.gpu_max_power_state is Some && config.vram_max_clock is Some {
        let g = HwDirective::StageGpuMaxState(config.gpu_max_power_state.unwrap());
        let v = HwDirective::StageVramMaxClock(config.vram_max_clock.unwrap());
        assert(d1 =~= seq![g, v]);
        assert(d1.drop_last() =~= seq![g]);
        assert(d1.drop_last().drop_last() =~= Seq::<HwDirective>::empty());
        assert(hw.perform_all(d1.drop_last().drop_last()) == hw);
        assert(hw.perform_all(d1.drop_last()) == hw.perform(g));
        assert(hw.perform_all(d1) == hw.perform(g).perform(v));
    } else if config.gpu_max_power_state is Some {
        let g = HwDirective::StageGpuMaxState(config.gpu_max_power_state.unwrap());
        assert(d1 =~= seq![g]);
        assert(d1.drop_last() =~= Seq::<HwDirective>::empty());
        assert(hw.perform_all(d1.drop_last()) == hw);
        assert(hw.perform_all(d1) == hw.perform(g));
    } else {
        let v = HwDirective::StageVramMaxClock(config.vram_max_clock.unwrap());
        assert(d1 =~= seq![v]);
        assert(d1.drop_last() =~= Seq::<HwDirective>::empty());
        assert(hw.perform_all(d1.drop_last()) == hw);
        assert(hw.perform_all(d1) == hw.perform(v));
    }
}

/// A clock edit that is staged, committed and then reset leaves the device
/// at its default clocks, not at the committed ones, although the commit had
/// put the edit in force.
pub proof fn lemma_commit_then_reset(c: GpuControllerView, hw: HwState, state: MaxPowerState)
    requires
        stageable_state(state),
    ensures
        ({
            let staged = c.set_gpu_max_power_state(state).unwrap();
            let commit = staged.commit_gpu_power_states();
            let committed = hw.perform_all(commit.directives);
            let reset = commit.next.reset_gpu_power_states();
            let after = committed.perform_all(reset.directives);
            &&& committed.applied_clocks.gpu_max == state
            &&& !commit.next.config.has_staged_edits()
            &&& after.applied_clocks == hw.default_clocks
            &&& after.staged_gpu_max is None && after.staged_vram_max is None
        }),
{
    let staged = c.set_gpu_max_power_state(state).unwrap();
    lemma_commit_applies(staged.config, hw);
    let committed = hw.perform_all(commit_directives(staged.config));
    lemma_stage_then_reset(staged.commit_gpu_power_states().next, committed, state);
}

/// A commit with nothing staged issues no directive and changes no setting.
pub proof fn lemma_commit_of_nothing(c: GpuControllerView, hw: HwState)
    requires
        !c.config.has_staged_edits(),
    ensures
        c.commit_gpu_power_states().directives == Seq::<HwDirective>::empty(),
        c.commit_gpu_power_states().next == c,
        hw.perform_all(c.commit_gpu_power_states().directives) == hw,
{
    assert(c.commit_gpu_power_states().next.config == c.config);
}

} // verus!
