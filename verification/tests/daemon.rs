use lact_daemon::config::{Config, GpuConfig, MaxPowerState, PowerProfile};
use lact_daemon::daemon::{
    Action, Daemon, DaemonError, DaemonResponse, Incoming, Reply, Step,
};
use lact_daemon::fan_curve::{CurvePoint, FanCurve};
use lact_daemon::gpu_controller::{GpuInfo, GpuStats, VendorData};
use lact_daemon::hw_mon::{
    ClockState, DeviceDirectives, FanMode, HwDirective, HwReadings, HwState,
};
use lact_daemon::identifier::{GpuIdentifier, PciAddress};
use lact_daemon::reconcile::DiscoveredGpu;

fn identifier(bus: u8) -> GpuIdentifier {
    GpuIdentifier {
        address: PciAddress { domain: 0, bus, device: 0, function: 0 },
        vendor_id: 0x1002,
        device_id: 0x67df,
        subsystem_vendor_id: 0x1da2,
        subsystem_device_id: 0xe387,
    }
}

fn device(card: u32, bus: u8, model: Option<&str>) -> DiscoveredGpu {
    DiscoveredGpu {
        card,
        info: GpuInfo {
            identifier: identifier(bus),
            vendor_data: VendorData {
                gpu_vendor: None,
                gpu_model: model.map(|m| m.to_string()),
                card_vendor: None,
                card_model: None,
            },
        },
    }
}

fn hardware() -> HwState {
    let defaults = ClockState {
        gpu_max: MaxPowerState { clockspeed: 1340, voltage: Some(1150) },
        vram_max: 2000,
    };
    HwState {
        temperature: 45,
        gpu_clock: 300,
        vram_clock: 400,
        utilization: 7,
        fan_mode: FanMode::Automatic,
        fan_duty: 64,
        power_cap: 120,
        power_cap_min: 50,
        power_cap_max: 180,
        power_profile: PowerProfile::Auto,
        default_clocks: defaults,
        applied_clocks: defaults,
        staged_gpu_max: None,
        staged_vram_max: None,
    }
}

fn one_device() -> (Daemon, u32) {
    let started =
        Daemon::new(false, None, "/etc/lact.json".to_string(), &vec![device(0, 3, Some("Ellesmere"))]);
    let handle = started.daemon.controllers()[0].handle;
    (started.daemon, handle)
}

fn ok(persist: bool) -> Step {
    Step::Reply(Reply { response: Ok(DaemonResponse::OK), persist })
}

fn refused(error: DaemonError) -> Step {
    Step::Reply(Reply { response: Err(error), persist: false })
}

/// Performs the directives of a step on the device and reports back.
fn perform(daemon: &mut Daemon, hw: &mut HwState, step: Step) -> Reply {
    match step {
        Step::Hardware(queue) => {
            hw.apply_all(&queue.directives);
            daemon.complete(true).unwrap()
        }
        Step::Reply(reply) => reply,
        other => panic!("unexpected step {:?}", other),
    }
}

fn curve_points() -> Vec<CurvePoint> {
    vec![
        CurvePoint { temperature: 30, speed: 2_000 },
        CurvePoint { temperature: 60, speed: 6_000 },
        CurvePoint { temperature: 80, speed: 10_000 },
    ]
}

#[test]
fn first_start_gives_the_device_a_handle_and_an_entry() {
    let started =
        Daemon::new(false, None, "/etc/lact.json".to_string(), &vec![device(0, 3, None)]);
    assert!(started.persist);
    assert_eq!(started.hardware, vec![]);
    let daemon = started.daemon;
    assert!(daemon.is_listening());
    assert_eq!(daemon.controllers().len(), 1);
    assert_eq!(daemon.config().len(), 1);
    let handle = daemon.controllers()[0].handle;
    let entry = &daemon.config().entries()[0];
    assert_eq!(entry.handle, handle);
    assert_eq!(entry.identifier, identifier(3));
    assert_eq!(entry.config, GpuConfig::new());
    assert_eq!(daemon.config().config_path(), "/etc/lact.json");
    assert_eq!(daemon.card_of(handle), Some(0));
    assert_eq!(daemon.card_of(handle.wrapping_add(1)), None);
}

#[test]
fn restart_reuses_the_handle() {
    let (first, handle) = one_device();
    let stored = first.config().clone();
    let second = Daemon::new(
        false,
        Some(stored.clone()),
        "/etc/lact.json".to_string(),
        &vec![device(0, 3, None)],
    );
    assert_eq!(second.daemon.controllers().len(), 1);
    assert_eq!(second.daemon.controllers()[0].handle, handle);
    assert_eq!(second.daemon.config(), &stored);
    assert!(second.persist);
}

#[test]
fn restart_recognises_devices_whatever_their_order() {
    let devices = vec![device(0, 3, None), device(1, 4, None)];
    let first = Daemon::new(false, None, "store".to_string(), &devices).daemon;
    let of_three = first.config().handle_of(&identifier(3)).unwrap();
    let of_four = first.config().handle_of(&identifier(4)).unwrap();
    assert_ne!(of_three, of_four);
    let swapped = vec![device(0, 4, None), device(1, 3, None)];
    let second =
        Daemon::new(false, Some(first.config().clone()), "store".to_string(), &swapped).daemon;
    assert_eq!(second.controllers()[0].handle, of_four);
    assert_eq!(second.controllers()[1].handle, of_three);
    assert_eq!(second.card_of(of_three), Some(1));
    assert_eq!(second.config(), first.config());
}

#[test]
fn an_unprivileged_start_ignores_the_store_and_leaves_the_disk_alone() {
    let mut stored = Config::new("elsewhere".to_string());
    stored.insert(1, identifier(3), GpuConfig::new());
    let started =
        Daemon::new(true, Some(stored), "/etc/lact.json".to_string(), &vec![device(0, 9, None)]);
    assert!(!started.persist);
    assert_eq!(started.daemon.config().len(), 1);
    assert_eq!(started.daemon.config().entries()[0].identifier, identifier(9));
    assert_eq!(started.daemon.config().config_path(), "/etc/lact.json");
}

#[test]
fn a_start_with_stored_fan_control_takes_the_fan_over() {
    let mut stored = Config::new("store".to_string());
    let mut settings = GpuConfig::new();
    settings.fan_control_enabled = true;
    stored.insert(42, identifier(3), settings);
    let started =
        Daemon::new(false, Some(stored), "store".to_string(), &vec![device(2, 3, None)]);
    assert_eq!(
        started.hardware,
        vec![DeviceDirectives {
            card: 2,
            directives: vec![HwDirective::SetFanMode(FanMode::Manual)],
        }]
    );
    assert!(started.daemon.controllers()[0].controller.is_fan_control_running());
}

#[test]
fn check_alive_is_acknowledged() {
    let (mut daemon, _) = one_device();
    assert_eq!(daemon.handle_connection(Action::CheckAlive, &HwReadings::unavailable()), ok(false));
}

#[test]
fn the_set_fan_curve_is_reported_and_fan_control_stays_off_until_started() {
    let (mut daemon, handle) = one_device();
    let mut hw = hardware();
    let step = daemon.handle_connection(Action::SetFanCurve(handle, curve_points()), &hw.read());
    assert_eq!(step, ok(true));
    let curve = FanCurve::from_points(&curve_points()).unwrap();
    assert_eq!(daemon.config().get(handle).unwrap().config.fan_curve, curve);
    match daemon.handle_connection(Action::GetFanControl(handle), &hw.read()) {
        Step::Reply(Reply { response: Ok(DaemonResponse::FanControlInfo(info)), persist }) => {
            assert!(!persist);
            assert!(!info.enabled);
            assert_eq!(info.curve, curve);
            assert_eq!(info.duty, 64);
        }
        other => panic!("unexpected step {:?}", other),
    }
    let step = daemon.handle_connection(Action::StartFanControl(handle), &hw.read());
    assert_eq!(
        step,
        Step::Hardware(DeviceDirectives {
            card: 0,
            directives: vec![HwDirective::SetFanMode(FanMode::Manual)],
        })
    );
    assert!(!daemon.is_listening());
    let reply = perform(&mut daemon, &mut hw, step);
    assert_eq!(reply, Reply { response: Ok(DaemonResponse::OK), persist: true });
    assert_eq!(hw.fan_mode, FanMode::Manual);
    assert!(daemon.config().get(handle).unwrap().config.fan_control_enabled);
    match daemon.handle_connection(Action::GetFanControl(handle), &hw.read()) {
        Step::Reply(Reply { response: Ok(DaemonResponse::FanControlInfo(info)), .. }) => {
            assert!(info.enabled);
            assert_eq!(info.curve, curve);
        }
        other => panic!("unexpected step {:?}", other),
    }
}

#[test]
fn a_malformed_fan_curve_is_a_controller_error() {
    let (mut daemon, handle) = one_device();
    let before = daemon.config().clone();
    assert_eq!(
        daemon.handle_connection(Action::SetFanCurve(handle, vec![]), &hardware().read()),
        refused(DaemonError::ControllerError)
    );
    assert_eq!(daemon.config(), &before);
}

#[test]
fn a_power_cap_above_the_maximum_is_refused_and_the_cap_stays() {
    let (mut daemon, handle) = one_device();
    let mut hw = hardware();
    let step = daemon.handle_connection(Action::SetPowerCap(handle, 150), &hw.read());
    let reply = perform(&mut daemon, &mut hw, step);
    assert_eq!(reply, Reply { response: Ok(DaemonResponse::OK), persist: true });
    assert_eq!(hw.power_cap, 150);
    let stored = daemon.config().clone();
    for cap in [181, 49] {
        let step = daemon.handle_connection(Action::SetPowerCap(handle, cap), &hw.read());
        assert_eq!(step, refused(DaemonError::ControllerError));
        assert!(daemon.is_listening());
        assert_eq!(daemon.config(), &stored);
    }
    assert_eq!(hw.power_cap, 150);
    assert_eq!(
        daemon.handle_connection(Action::GetPowerCap(handle), &hw.read()),
        Step::Reply(Reply { response: Ok(DaemonResponse::PowerCap((150, 180))), persist: false })
    );
    assert_eq!(daemon.config().get(handle).unwrap().config.power_cap, Some(150));
}

#[test]
fn unreadable_attributes_are_hardware_faults() {
    let (mut daemon, handle) = one_device();
    let nothing = HwReadings::unavailable();
    for action in [
        Action::GetStats(handle),
        Action::GetFanControl(handle),
        Action::GetPowerCap(handle),
        Action::SetPowerCap(handle, 100),
    ] {
        assert_eq!(daemon.handle_connection(action, &nothing), refused(DaemonError::HWMonError));
    }
    assert_eq!(
        daemon.handle_connection(Action::SetPowerProfile(handle, PowerProfile::Low), &nothing),
        refused(DaemonError::ControllerError)
    );
}

#[test]
fn stats_and_info_are_read_only() {
    let (mut daemon, handle) = one_device();
    let hw = hardware();
    assert_eq!(
        daemon.handle_connection(Action::GetStats(handle), &hw.read()),
        Step::Reply(Reply {
            response: Ok(DaemonResponse::GpuStats(GpuStats {
                temperature: 45,
                gpu_clock: 300,
                vram_clock: 400,
                utilization: 7,
                fan_duty: Some(64),
                power_cap: Some(120),
            })),
            persist: false,
        })
    );
    assert_eq!(
        daemon.handle_connection(Action::GetInfo(handle), &HwReadings::unavailable()),
        Step::Reply(Reply {
            response: Ok(DaemonResponse::GpuInfo(device(0, 3, Some("Ellesmere")).info)),
            persist: false,
        })
    );
}

#[test]
fn a_commit_of_nothing_succeeds_and_leaves_the_hardware_alone() {
    let (mut daemon, handle) = one_device();
    let step = daemon.handle_connection(Action::CommitGPUPowerStates(handle), &hardware().read());
    assert_eq!(step, ok(true));
    assert!(daemon.is_listening());
}

#[test]
fn staged_clocks_are_committed_and_reset() {
    let (mut daemon, handle) = one_device();
    let mut hw = hardware();
    assert_eq!(
        daemon.handle_connection(Action::SetGPUMaxPowerState(handle, 1500, Some(1200)), &hw.read()),
        ok(true)
    );
    assert_eq!(
        daemon.handle_connection(Action::SetVRAMMaxClock(handle, 2100), &hw.read()),
        ok(true)
    );
    assert_eq!(
        daemon.config().get(handle).unwrap().config.gpu_max_power_state,
        Some(MaxPowerState { clockspeed: 1500, voltage: Some(1200) })
    );
    assert_eq!(hw.applied_clocks, hw.default_clocks);
    let step = daemon.handle_connection(Action::CommitGPUPowerStates(handle), &hw.read());
    assert_eq!(
        step,
        Step::Hardware(DeviceDirectives {
            card: 0,
            directives: vec![
                HwDirective::StageGpuMaxState(MaxPowerState {
                    clockspeed: 1500,
                    voltage: Some(1200),
                }),
                HwDirective::StageVramMaxClock(2100),
                HwDirective::CommitClocks,
            ],
        })
    );
    perform(&mut daemon, &mut hw, step);
    assert_eq!(hw.applied_clocks.gpu_max.clockspeed, 1500);
    assert_eq!(daemon.config().get(handle).unwrap().config.gpu_max_power_state, None);
    let step = daemon.handle_connection(Action::ResetGPUPowerStates(handle), &hw.read());
    let reply = perform(&mut daemon, &mut hw, step);
    assert_eq!(reply, Reply { response: Ok(DaemonResponse::OK), persist: true });
    assert_eq!(hw.applied_clocks, hw.default_clocks);
}

#[test]
fn clocks_that_cannot_be_staged_are_controller_errors() {
    let (mut daemon, handle) = one_device();
    let hw = hardware();
    assert_eq!(
        daemon.handle_connection(Action::SetGPUMaxPowerState(handle, 0, None), &hw.read()),
        refused(DaemonError::ControllerError)
    );
    assert_eq!(
        daemon.handle_connection(Action::SetVRAMMaxClock(handle, -1), &hw.read()),
        refused(DaemonError::ControllerError)
    );
}

#[test]
fn directives_that_fail_leave_state_and_store_as_they_were() {
    let (mut daemon, handle) = one_device();
    let hw = hardware();
    let before = daemon.config().clone();
    let step = daemon.handle_connection(Action::SetPowerCap(handle, 100), &hw.read());
    assert!(matches!(step, Step::Hardware(_)));
    assert_eq!(
        daemon.complete(false),
        Some(Reply { response: Err(DaemonError::HWMonError), persist: false })
    );
    assert!(daemon.is_listening());
    assert_eq!(daemon.config(), &before);
    assert_eq!(daemon.controllers()[0].controller.get_config().power_cap, None);
    assert_eq!(daemon.complete(true), None);
}

#[test]
fn requests_wait_while_directives_are_out() {
    let (mut daemon, handle) = one_device();
    let hw = hardware();
    daemon.handle_connection(Action::StartFanControl(handle), &hw.read());
    assert_eq!(daemon.handle_connection(Action::CheckAlive, &hw.read()), Step::CloseSilently);
    daemon.complete(true);
    assert_eq!(daemon.handle_connection(Action::CheckAlive, &hw.read()), ok(false));
}

#[test]
fn an_unknown_handle_is_an_invalid_identifier_for_every_request() {
    let (mut daemon, handle) = one_device();
    let unknown = handle.wrapping_add(1);
    let before = daemon.config().clone();
    let actions = vec![
        Action::GetInfo(unknown),
        Action::GetStats(unknown),
        Action::StartFanControl(unknown),
        Action::StopFanControl(unknown),
        Action::GetFanControl(unknown),
        Action::SetFanCurve(unknown, curve_points()),
        Action::SetPowerCap(unknown, 100),
        Action::GetPowerCap(unknown),
        Action::SetPowerProfile(unknown, PowerProfile::High),
        Action::SetGPUMaxPowerState(unknown, 1500, None),
        Action::SetVRAMMaxClock(unknown, 2100),
        Action::CommitGPUPowerStates(unknown),
        Action::ResetGPUPowerStates(unknown),
    ];
    for action in actions {
        assert_eq!(action.target(), Some(unknown));
        let step = daemon.handle_connection(action, &hardware().read());
        assert_eq!(step, refused(DaemonError::InvalidID));
        assert!(daemon.is_listening());
        assert_eq!(daemon.config(), &before);
    }
}

#[test]
fn requests_about_no_device_have_no_target() {
    assert_eq!(Action::CheckAlive.target(), None);
    assert_eq!(Action::GetConfig.target(), None);
    assert_eq!(Action::GetGpus.target(), None);
    assert_eq!(Action::Shutdown.target(), None);
    assert_eq!(Action::SetConfig(Config::new("x".to_string())).target(), None);
}

#[test]
fn devices_are_listed_with_their_names() {
    let devices = vec![device(0, 3, Some("Ellesmere")), device(1, 4, None)];
    let mut daemon = Daemon::new(true, None, "store".to_string(), &devices).daemon;
    let first = daemon.controllers()[0].handle;
    let second = daemon.controllers()[1].handle;
    assert_eq!(
        daemon.handle_connection(Action::GetGpus, &HwReadings::unavailable()),
        Step::Reply(Reply {
            response: Ok(DaemonResponse::Gpus(std::collections::HashMap::from([
                (first, Some("Ellesmere".to_string())),
                (second, None),
            ]))),
            persist: false,
        })
    );
}

#[test]
fn the_store_is_handed_out_whole() {
    let (mut daemon, _) = one_device();
    let stored = daemon.config().clone();
    assert_eq!(
        daemon.handle_connection(Action::GetConfig, &HwReadings::unavailable()),
        Step::Reply(Reply { response: Ok(DaemonResponse::Config(stored)), persist: false })
    );
}

#[test]
fn a_new_store_makes_the_service_find_its_devices_again() {
    let (mut daemon, handle) = one_device();
    let mut hw = hardware();
    let step = daemon.handle_connection(Action::StartFanControl(handle), &hw.read());
    perform(&mut daemon, &mut hw, step);
    let mut replacement = Config::new("/etc/lact.json".to_string());
    replacement.set_allow_online_update(Some(true));
    replacement.insert(7, identifier(3), GpuConfig::new());
    let step = daemon.handle_connection(Action::SetConfig(replacement.clone()), &hw.read());
    assert_eq!(
        step,
        Step::Reload(vec![DeviceDirectives {
            card: 0,
            directives: vec![HwDirective::SetFanMode(FanMode::Automatic)],
        }])
    );
    assert!(!daemon.is_listening());
    assert_eq!(daemon.controllers().len(), 0);
    assert_eq!(daemon.handle_connection(Action::CheckAlive, &hw.read()), Step::CloseSilently);
    assert_eq!(daemon.complete(true), None);
    let reloaded = daemon
        .reload(&vec![device(0, 3, Some("Ellesmere")), device(1, 4, None)])
        .unwrap();
    assert_eq!(reloaded.reply, Reply { response: Ok(DaemonResponse::OK), persist: true });
    assert_eq!(reloaded.hardware, vec![DeviceDirectives { card: 0, directives: vec![] }]);
    assert!(daemon.is_listening());
    assert_eq!(daemon.controllers()[0].handle, 7);
    assert_eq!(daemon.controllers().len(), 2);
    assert_eq!(daemon.config().len(), 2);
    assert!(daemon.config().wants_online_update());
    assert!(!daemon.controllers()[0].controller.is_fan_control_running());
    assert!(daemon.reload(&vec![]).is_none());
}

#[test]
fn shutdown_returns_every_device_to_its_defaults() {
    let (mut daemon, handle) = one_device();
    let mut hw = hardware();
    let step = daemon.handle_connection(Action::StartFanControl(handle), &hw.read());
    perform(&mut daemon, &mut hw, step);
    let step =
        daemon.handle_connection(Action::SetPowerProfile(handle, PowerProfile::High), &hw.read());
    perform(&mut daemon, &mut hw, step);
    daemon.handle_connection(Action::SetGPUMaxPowerState(handle, 1500, None), &hw.read());
    let step = daemon.handle_connection(Action::CommitGPUPowerStates(handle), &hw.read());
    perform(&mut daemon, &mut hw, step);
    assert_eq!(hw.fan_mode, FanMode::Manual);
    assert_eq!(hw.power_profile, PowerProfile::High);
    assert_eq!(hw.applied_clocks.gpu_max.clockspeed, 1500);
    let stored = daemon.config().clone();
    let step = daemon.handle_connection(Action::Shutdown, &HwReadings::unavailable());
    let expected = vec![DeviceDirectives {
        card: 0,
        directives: vec![
            HwDirective::ResetClocks,
            HwDirective::SetPowerProfile(PowerProfile::Auto),
            HwDirective::SetFanMode(FanMode::Automatic),
        ],
    }];
    assert_eq!(step, Step::Shutdown(expected));
    if let Step::Shutdown(queues) = step {
        hw.apply_all(&queues[0].directives);
    }
    assert_eq!(hw.fan_mode, FanMode::Automatic);
    assert_eq!(hw.power_profile, PowerProfile::Auto);
    assert_eq!(hw.applied_clocks, hw.default_clocks);
    assert!(!daemon.is_listening());
    assert!(!daemon.controllers()[0].controller.is_fan_control_running());
    assert_eq!(daemon.config(), &stored);
    assert_eq!(daemon.handle_connection(Action::CheckAlive, &hw.read()), Step::CloseSilently);
}

#[test]
fn the_accept_loop_stops_on_failure_and_drops_what_it_cannot_decode() {
    let (mut daemon, _) = one_device();
    let nothing = HwReadings::unavailable();
    let before = daemon.config().clone();
    assert_eq!(daemon.listen(Incoming::Failed, &nothing), Step::StopListening);
    assert_eq!(daemon.listen(Incoming::Undecodable, &nothing), Step::CloseSilently);
    assert_eq!(daemon.listen(Incoming::Request(Action::CheckAlive), &nothing), ok(false));
    assert!(daemon.is_listening());
    assert_eq!(daemon.config(), &before);
}

#[test]
fn the_fan_loop_of_a_device_ticks_through_the_service() {
    let (mut daemon, handle) = one_device();
    let mut hw = hardware();
    assert_eq!(daemon.fan_control_tick(handle, Some(70)), None);
    let step = daemon.handle_connection(Action::StartFanControl(handle), &hw.read());
    perform(&mut daemon, &mut hw, step);
    let queue = daemon.fan_control_tick(handle, Some(70)).unwrap();
    assert_eq!(
        queue,
        DeviceDirectives { card: 0, directives: vec![HwDirective::SetFanDuty(175)] }
    );
    hw.apply_all(&queue.directives);
    assert_eq!(hw.fan_duty, 175);
    assert_eq!(daemon.fan_control_tick(handle, None), None);
    daemon.fan_write_failed(handle);
    match daemon.handle_connection(Action::GetFanControl(handle), &hw.read()) {
        Step::Reply(Reply { response: Ok(DaemonResponse::FanControlInfo(info)), .. }) => {
            assert_eq!(info.faults, 2);
            assert_eq!(info.duty, 175);
        }
        other => panic!("unexpected step {:?}", other),
    }
    assert_eq!(daemon.fan_control_tick(handle.wrapping_add(1), Some(70)), None);
    daemon.fan_write_failed(handle.wrapping_add(1));
    let step = daemon.handle_connection(Action::StopFanControl(handle), &hw.read());
    perform(&mut daemon, &mut hw, step);
    assert_eq!(hw.fan_mode, FanMode::Automatic);
    assert_eq!(daemon.fan_control_tick(handle, Some(70)), None);
}

#[test]
fn handles_of_new_devices_are_drawn_afresh() {
    let devices = vec![device(0, 3, None), device(1, 4, None), device(2, 5, None)];
    let mut seen = std::collections::HashSet::new();
    for _ in 0..8 {
        let daemon = Daemon::new(true, None, "store".to_string(), &devices).daemon;
        assert_eq!(daemon.controllers().len(), 3);
        for slot in daemon.controllers() {
            seen.insert(slot.handle);
        }
    }
    assert!(seen.len() > 3);
}

#[test]
fn a_cap_above_the_maximum_is_refused_even_where_the_minimum_cannot_be_read() {
    let (mut daemon, handle) = one_device();
    let mut readings = hardware().read();
    readings.power_cap_min = None;
    assert_eq!(
        daemon.listen(Incoming::Request(Action::SetPowerCap(handle, 181)), &readings),
        refused(DaemonError::ControllerError)
    );
    assert_eq!(
        daemon.listen(Incoming::Request(Action::GetPowerCap(handle)), &readings),
        Step::Reply(Reply { response: Ok(DaemonResponse::PowerCap((120, 180))), persist: false })
    );
}

#[test]
fn shutdown_hands_the_fan_back_exactly_where_the_store_has_fan_control_enabled() {
    let devices = vec![device(0, 3, None), device(10, 4, None)];
    let mut daemon = Daemon::new(false, None, "store".to_string(), &devices).daemon;
    let first = daemon.controllers()[0].handle;
    let mut hw = hardware();
    let step = daemon.handle_connection(Action::StartFanControl(first), &hw.read());
    perform(&mut daemon, &mut hw, step);
    for slot in daemon.controllers() {
        let entry = daemon.config().get(slot.handle).unwrap();
        assert_eq!(entry.config, slot.controller.get_config());
        assert_eq!(entry.identifier, slot.controller.get_identifier());
    }
    let step = daemon.handle_connection(Action::Shutdown, &HwReadings::unavailable());
    assert_eq!(
        step,
        Step::Shutdown(vec![
            DeviceDirectives {
                card: 0,
                directives: vec![
                    HwDirective::ResetClocks,
                    HwDirective::SetPowerProfile(PowerProfile::Auto),
                    HwDirective::SetFanMode(FanMode::Automatic),
                ],
            },
            DeviceDirectives {
                card: 10,
                directives: vec![
                    HwDirective::ResetClocks,
                    HwDirective::SetPowerProfile(PowerProfile::Auto),
                ],
            },
        ])
    );
}

#[test]
fn the_store_holds_the_settings_of_every_controller_after_every_change() {
    let (mut daemon, handle) = one_device();
    let mut hw = hardware();
    let actions = vec![
        Action::SetFanCurve(handle, curve_points()),
        Action::StartFanControl(handle),
        Action::SetPowerCap(handle, 100),
        Action::SetPowerProfile(handle, PowerProfile::Low),
        Action::SetGPUMaxPowerState(handle, 1500, None),
        Action::SetVRAMMaxClock(handle, 2100),
        Action::CommitGPUPowerStates(handle),
        Action::ResetGPUPowerStates(handle),
        Action::StopFanControl(handle),
    ];
    for action in actions {
        let step = daemon.handle_connection(action, &hw.read());
        let reply = perform(&mut daemon, &mut hw, step);
        assert_eq!(reply, Reply { response: Ok(DaemonResponse::OK), persist: true });
        let slot = &daemon.controllers()[0];
        assert_eq!(daemon.config().get(handle).unwrap().config, slot.controller.get_config());
    }
}
