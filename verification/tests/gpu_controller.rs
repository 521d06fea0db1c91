use lact_daemon::config::{GpuConfig, MaxPowerState, PowerProfile};
use lact_daemon::fan_curve::{CurvePoint, FanCurve};
use lact_daemon::gpu_controller::{
    GpuController, GpuControllerError, GpuInfo, GpuStats, VendorData,
};
use lact_daemon::hw_mon::{ClockState, FanMode, HwDirective, HwReadings, HwState};
use lact_daemon::identifier::{GpuIdentifier, PciAddress};

fn info() -> GpuInfo {
    GpuInfo {
        identifier: GpuIdentifier {
            address: PciAddress { domain: 0, bus: 3, device: 0, function: 0 },
            vendor_id: 0x1002,
            device_id: 0x67df,
            subsystem_vendor_id: 0x1da2,
            subsystem_device_id: 0xe387,
        },
        vendor_data: VendorData {
            gpu_vendor: Some("AMD".to_string()),
            gpu_model: Some("Ellesmere".to_string()),
            card_vendor: None,
            card_model: None,
        },
    }
}

fn controller() -> GpuController {
    GpuController::new(0, info(), GpuConfig::new())
}

fn hardware() -> HwState {
    let defaults = ClockState {
        gpu_max: MaxPowerState { clockspeed: 1340, voltage: Some(1150) },
        vram_max: 2000,
    };
    HwState {
        temperature: 45,
        gpu_clock: 300,
        vram_clock: 400,
        utilization: 7,
        fan_mode: FanMode::Automatic,
        fan_duty: 64,
        power_cap: 120,
        power_cap_min: 50,
        power_cap_max: 180,
        power_profile: PowerProfile::Auto,
        default_clocks: defaults,
        applied_clocks: defaults,
        staged_gpu_max: None,
        staged_vram_max: None,
    }
}

#[test]
fn a_new_controller_has_no_fan_loop() {
    let c = controller();
    assert_eq!(c.card(), 0);
    assert_eq!(c.get_identifier(), info().identifier);
    assert_eq!(c.get_info(), &info());
    assert_eq!(c.get_config(), GpuConfig::new());
    assert!(!c.is_fan_control_running());
}

#[test]
fn stats_need_temperature_clocks_and_utilization() {
    let c = controller();
    let readings = hardware().read();
    assert_eq!(
        c.get_stats(&readings),
        Ok(GpuStats {
            temperature: 45,
            gpu_clock: 300,
            vram_clock: 400,
            utilization: 7,
            fan_duty: Some(64),
            power_cap: Some(120),
        })
    );
    let mut no_fan = readings;
    no_fan.fan_duty = None;
    no_fan.power_cap = None;
    assert_eq!(c.get_stats(&no_fan).unwrap().fan_duty, None);
    let mut blind = readings;
    blind.temperature = None;
    assert_eq!(c.get_stats(&blind), Err(GpuControllerError::HwMon));
    let mut idle = readings;
    idle.utilization = None;
    assert_eq!(c.get_stats(&idle), Err(GpuControllerError::HwMon));
    assert_eq!(c.get_stats(&HwReadings::unavailable()), Err(GpuControllerError::HwMon));
}

#[test]
fn power_cap_is_reported_with_the_hardware_maximum() {
    let c = controller();
    assert_eq!(c.get_power_cap(&hardware().read()), Ok((120, 180)));
    let mut readings = hardware().read();
    readings.power_cap_max = None;
    assert_eq!(c.get_power_cap(&readings), Err(GpuControllerError::HwMon));
}

#[test]
fn power_cap_within_bounds_is_written_and_remembered() {
    let mut c = controller();
    let mut hw = hardware();
    for cap in [50, 100, 180] {
        let directives = c.set_power_cap(cap, &hw.read()).unwrap();
        assert_eq!(directives, vec![HwDirective::SetPowerCap(cap)]);
        hw.apply_all(&directives);
        assert_eq!(hw.power_cap, cap);
        assert_eq!(c.get_config().power_cap, Some(cap));
    }
}

#[test]
fn power_cap_outside_bounds_is_refused_and_changes_nothing() {
    let mut c = controller();
    let hw = hardware();
    let before = c.clone();
    for cap in [49, 181, i64::MIN, i64::MAX] {
        assert_eq!(c.set_power_cap(cap, &hw.read()), Err(GpuControllerError::OutOfRange));
        assert_eq!(c, before);
    }
    assert_eq!(c.get_power_cap(&hw.read()), Ok((120, 180)));
}

#[test]
fn power_cap_without_readable_bounds_is_a_hardware_fault() {
    let mut c = controller();
    let mut readings = hardware().read();
    readings.power_cap_min = None;
    assert_eq!(c.set_power_cap(100, &readings), Err(GpuControllerError::HwMon));
    assert_eq!(c.set_power_cap(180, &readings), Err(GpuControllerError::HwMon));
    let mut readings = hardware().read();
    readings.power_cap_max = None;
    assert_eq!(c.set_power_cap(50, &readings), Err(GpuControllerError::HwMon));
    assert_eq!(c.set_power_cap(100, &HwReadings::unavailable()), Err(GpuControllerError::HwMon));
    assert_eq!(c.get_config().power_cap, None);
}

#[test]
fn power_cap_beyond_one_readable_bound_is_out_of_range() {
    let mut c = controller();
    let mut readings = hardware().read();
    readings.power_cap_min = None;
    assert_eq!(c.set_power_cap(181, &readings), Err(GpuControllerError::OutOfRange));
    let mut readings = hardware().read();
    readings.power_cap_max = None;
    assert_eq!(c.set_power_cap(49, &readings), Err(GpuControllerError::OutOfRange));
    assert_eq!(c.get_config().power_cap, None);
}

#[test]
fn power_profile_needs_a_selector() {
    let mut c = controller();
    let mut hw = hardware();
    let directives = c.set_power_profile(PowerProfile::High, &hw.read()).unwrap();
    assert_eq!(directives, vec![HwDirective::SetPowerProfile(PowerProfile::High)]);
    hw.apply_all(&directives);
    assert_eq!(hw.power_profile, PowerProfile::High);
    assert_eq!(c.get_config().power_profile, PowerProfile::High);
    let mut readings = hw.read();
    readings.power_profile = None;
    assert_eq!(
        c.set_power_profile(PowerProfile::Low, &readings),
        Err(GpuControllerError::Unsupported)
    );
    assert_eq!(c.get_config().power_profile, PowerProfile::High);
}

#[test]
fn fan_curve_is_replaced_or_refused_whole() {
    let mut c = controller();
    let points =
        vec![CurvePoint { temperature: 60, speed: 6_000 }, CurvePoint { temperature: 30, speed: 2_000 }];
    assert_eq!(c.set_fan_curve(&points), Ok(()));
    assert_eq!(c.get_config().fan_curve, FanCurve::from_points(&points).unwrap());
    let kept = c.get_config();
    assert_eq!(c.set_fan_curve(&vec![]), Err(GpuControllerError::MalformedCurve));
    assert_eq!(
        c.set_fan_curve(&vec![CurvePoint { temperature: 30, speed: 10_001 }]),
        Err(GpuControllerError::MalformedCurve)
    );
    assert_eq!(c.get_config(), kept);
}

#[test]
fn fan_control_starts_and_stops() {
    let mut c = controller();
    let mut hw = hardware();
    let start = c.start_fan_control();
    assert_eq!(start, vec![HwDirective::SetFanMode(FanMode::Manual)]);
    hw.apply_all(&start);
    assert_eq!(hw.fan_mode, FanMode::Manual);
    assert!(c.is_fan_control_running());
    assert!(c.get_config().fan_control_enabled);
    let info = c.get_fan_control(&hw.read()).unwrap();
    assert!(info.enabled);
    assert_eq!(info.duty, 64);
    assert_eq!(info.faults, 0);
    assert_eq!(info.curve, FanCurve::default_curve());
    let stop = c.stop_fan_control();
    assert_eq!(stop, vec![HwDirective::SetFanMode(FanMode::Automatic)]);
    hw.apply_all(&stop);
    assert_eq!(hw.fan_mode, FanMode::Automatic);
    assert!(!c.is_fan_control_running());
    assert!(!c.get_config().fan_control_enabled);
}

#[test]
fn fan_status_needs_the_duty_cycle() {
    let c = controller();
    let mut readings = hardware().read();
    readings.fan_duty = None;
    assert_eq!(c.get_fan_control(&readings), Err(GpuControllerError::HwMon));
}

#[test]
fn fan_loop_follows_the_curve() {
    let mut c = controller();
    assert_eq!(c.fan_control_tick(Some(70)), None);
    c.start_fan_control();
    assert_eq!(c.fan_control_tick(Some(10)), Some(HwDirective::SetFanDuty(0)));
    assert_eq!(c.fan_control_tick(Some(60)), Some(HwDirective::SetFanDuty(127)));
    assert_eq!(c.fan_control_tick(Some(70)), Some(HwDirective::SetFanDuty(175)));
    assert_eq!(c.fan_control_tick(Some(100)), Some(HwDirective::SetFanDuty(255)));
    assert_eq!(c.fan_control_tick(Some(130)), Some(HwDirective::SetFanDuty(255)));
}

#[test]
fn fan_loop_counts_faults_and_goes_on() {
    let mut c = controller();
    c.start_fan_control();
    assert_eq!(c.fan_control_tick(None), None);
    assert_eq!(c.fan_control_tick(None), None);
    c.fan_write_failed();
    assert!(c.is_fan_control_running());
    assert_eq!(c.get_fan_control(&hardware().read()).unwrap().faults, 3);
    assert_eq!(c.fan_control_tick(Some(60)), Some(HwDirective::SetFanDuty(127)));
    c.stop_fan_control();
    c.start_fan_control();
    assert_eq!(c.get_fan_control(&hardware().read()).unwrap().faults, 0);
}

#[test]
fn staged_clocks_must_be_positive() {
    let mut c = controller();
    assert_eq!(c.set_gpu_max_power_state(0, None), Err(GpuControllerError::OutOfRange));
    assert_eq!(c.set_gpu_max_power_state(-5, Some(900)), Err(GpuControllerError::OutOfRange));
    assert_eq!(c.set_gpu_max_power_state(1500, Some(0)), Err(GpuControllerError::OutOfRange));
    assert_eq!(c.set_vram_max_clockspeed(0), Err(GpuControllerError::OutOfRange));
    assert_eq!(c.get_config(), GpuConfig::new());
    assert_eq!(c.set_gpu_max_power_state(1500, None), Ok(()));
    assert_eq!(c.set_vram_max_clockspeed(1), Ok(()));
    assert_eq!(
        c.get_config().gpu_max_power_state,
        Some(MaxPowerState { clockspeed: 1500, voltage: None })
    );
    assert_eq!(c.get_config().vram_max_clock, Some(1));
}

#[test]
fn staging_then_reset_leaves_the_clocks_where_they_were() {
    let mut c = controller();
    let mut hw = hardware();
    let before = hw.applied_clocks;
    c.set_gpu_max_power_state(1500, Some(1200)).unwrap();
    let reset = c.reset_gpu_power_states();
    assert_eq!(reset, vec![HwDirective::ResetClocks]);
    hw.apply_all(&reset);
    assert_eq!(hw.applied_clocks, before);
    assert_eq!(c.get_config().gpu_max_power_state, None);
}

#[test]
fn commit_puts_staged_clocks_in_force_and_reset_returns_the_defaults() {
    let mut c = controller();
    let mut hw = hardware();
    c.set_gpu_max_power_state(1500, Some(1200)).unwrap();
    c.set_vram_max_clockspeed(2100).unwrap();
    let commit = c.commit_gpu_power_states();
    assert_eq!(
        commit,
        vec![
            HwDirective::StageGpuMaxState(MaxPowerState { clockspeed: 1500, voltage: Some(1200) }),
            HwDirective::StageVramMaxClock(2100),
            HwDirective::CommitClocks,
        ]
    );
    hw.apply_all(&commit);
    assert_eq!(hw.applied_clocks.gpu_max, MaxPowerState { clockspeed: 1500, voltage: Some(1200) });
    assert_eq!(hw.applied_clocks.vram_max, 2100);
    assert_eq!(c.get_config().gpu_max_power_state, None);
    assert_eq!(c.get_config().vram_max_clock, None);
    let reset = c.reset_gpu_power_states();
    hw.apply_all(&reset);
    assert_eq!(hw.applied_clocks, hw.default_clocks);
    assert_eq!(hw.applied_clocks.gpu_max.clockspeed, 1340);
}

#[test]
fn commit_of_one_staged_edit_writes_that_edit_only() {
    let mut c = controller();
    let mut hw = hardware();
    c.set_vram_max_clockspeed(2100).unwrap();
    let commit = c.commit_gpu_power_states();
    assert_eq!(commit, vec![HwDirective::StageVramMaxClock(2100), HwDirective::CommitClocks]);
    hw.apply_all(&commit);
    assert_eq!(hw.applied_clocks.vram_max, 2100);
    assert_eq!(hw.applied_clocks.gpu_max, hw.default_clocks.gpu_max);
}

#[test]
fn commit_of_nothing_writes_nothing() {
    let mut c = controller();
    let before = c.clone();
    assert_eq!(c.commit_gpu_power_states(), vec![]);
    assert_eq!(c, before);
}

#[test]
fn stored_settings_are_taken_over() {
    let mut c = controller();
    let mut stored = GpuConfig::new();
    stored.power_cap = Some(90);
    assert_eq!(c.load_config(&stored), vec![]);
    assert_eq!(c.get_config(), stored);
    assert!(!c.is_fan_control_running());
    stored.fan_control_enabled = true;
    assert_eq!(c.load_config(&stored), vec![HwDirective::SetFanMode(FanMode::Manual)]);
    assert!(c.is_fan_control_running());
    assert_eq!(c.get_config(), stored);
}

#[test]
fn shutdown_returns_the_device_to_its_defaults() {
    let mut c = controller();
    let mut hw = hardware();
    hw.apply_all(&c.start_fan_control());
    hw.apply_all(&c.set_power_profile(PowerProfile::High, &hw.read()).unwrap());
    c.set_gpu_max_power_state(1500, None).unwrap();
    hw.apply_all(&c.commit_gpu_power_states());
    c.set_vram_max_clockspeed(2100).unwrap();
    let directives = c.shutdown();
    assert_eq!(
        directives,
        vec![
            HwDirective::ResetClocks,
            HwDirective::SetPowerProfile(PowerProfile::Auto),
            HwDirective::SetFanMode(FanMode::Automatic),
        ]
    );
    hw.apply_all(&directives);
    assert_eq!(hw.applied_clocks, hw.default_clocks);
    assert_eq!(hw.power_profile, PowerProfile::Auto);
    assert_eq!(hw.fan_mode, FanMode::Automatic);
    assert!(!c.is_fan_control_running());
    assert_eq!(c.get_config().vram_max_clock, None);
}

#[test]
fn shutdown_leaves_a_fan_alone_that_was_not_controlled() {
    let mut c = controller();
    assert_eq!(
        c.shutdown(),
        vec![HwDirective::ResetClocks, HwDirective::SetPowerProfile(PowerProfile::Auto)]
    );
}

#[test]
fn staged_edits_reach_the_device_only_with_a_commit() {
    let mut hw = hardware();
    let applied = hw.applied_clocks;
    hw.apply(HwDirective::StageGpuMaxState(MaxPowerState { clockspeed: 1500, voltage: None }));
    hw.apply(HwDirective::StageVramMaxClock(2100));
    assert_eq!(hw.applied_clocks, applied);
    hw.apply(HwDirective::CommitClocks);
    assert_eq!(hw.applied_clocks.gpu_max.clockspeed, 1500);
    assert_eq!(hw.applied_clocks.vram_max, 2100);
    assert_eq!(hw.staged_gpu_max, None);
    hw.apply(HwDirective::SetFanDuty(200));
    assert_eq!(hw.read().fan_duty, Some(200));
}
