use lact_daemon::config::{Config, GpuConfig};
use lact_daemon::gpu_controller::{GpuInfo, VendorData};
use lact_daemon::hw_mon::{DeviceDirectives, FanMode, HwDirective};
use lact_daemon::identifier::{GpuIdentifier, PciAddress};
use lact_daemon::reconcile::{card_of_entry, find_slot, holds_card, reconcile_with, DiscoveredGpu};

fn identifier(bus: u8) -> GpuIdentifier {
    GpuIdentifier {
        address: PciAddress { domain: 0, bus, device: 0, function: 0 },
        vendor_id: 0x1002,
        device_id: 0x67df,
        subsystem_vendor_id: 0x1da2,
        subsystem_device_id: 0xe387,
    }
}

fn device(card: u32, bus: u8) -> DiscoveredGpu {
    DiscoveredGpu {
        card,
        info: GpuInfo {
            identifier: identifier(bus),
            vendor_data: VendorData {
                gpu_vendor: None,
                gpu_model: Some(format!("model {}", bus)),
                card_vendor: None,
                card_model: None,
            },
        },
    }
}

fn handles(found: &lact_daemon::reconcile::Reconciliation) -> Vec<u32> {
    found.controllers.iter().map(|slot| slot.handle).collect()
}

#[test]
fn directory_names_of_devices_are_card_and_a_number() {
    assert_eq!(card_of_entry(b"card0"), Some(0));
    assert_eq!(card_of_entry(b"card7"), Some(7));
    assert_eq!(card_of_entry(b"card10"), Some(10));
    assert_eq!(card_of_entry(b"card128"), Some(128));
    assert_eq!(card_of_entry(b"card4294967295"), Some(u32::MAX));
    assert_eq!(card_of_entry(b"card007"), Some(7));
}

#[test]
fn other_directory_names_stand_for_no_device() {
    assert_eq!(card_of_entry(b"card"), None);
    assert_eq!(card_of_entry(b"cardx"), None);
    assert_eq!(card_of_entry(b"card0-DP-1"), None);
    assert_eq!(card_of_entry(b"card10-HDMI-A-1"), None);
    assert_eq!(card_of_entry(b"card1 "), None);
    assert_eq!(card_of_entry(b"card-1"), None);
    assert_eq!(card_of_entry(b"card+1"), None);
    assert_eq!(card_of_entry(b"card1a"), None);
    assert_eq!(card_of_entry(b"card0x1"), None);
    assert_eq!(card_of_entry(b"card4294967296"), None);
    assert_eq!(card_of_entry(b"card99999999999999999999999999"), None);
    assert_eq!(card_of_entry(b"Card0"), None);
    assert_eq!(card_of_entry(b"cart0"), None);
    assert_eq!(card_of_entry(b"carb0"), None);
    assert_eq!(card_of_entry(b"xard0"), None);
    assert_eq!(card_of_entry(b"cord0"), None);
    assert_eq!(card_of_entry(b"car"), None);
    assert_eq!(card_of_entry(b"renderD128"), None);
    assert_eq!(card_of_entry(b"version"), None);
    assert_eq!(card_of_entry(b""), None);
}

#[test]
fn every_device_directory_gets_a_controller_and_an_entry() {
    let names: [&[u8]; 5] = [b"card0", b"card0-DP-1", b"card10", b"renderD128", b"version"];
    let mut devices = Vec::new();
    for (bus, name) in names.iter().enumerate() {
        if let Some(card) = card_of_entry(name) {
            devices.push(device(card, bus as u8));
        }
    }
    let mut store = Config::new("store".to_string());
    let found = reconcile_with(&mut store, &devices, &vec![5, 6]);
    assert_eq!(found.controllers.len(), 2);
    assert_eq!(store.len(), 2);
    assert_eq!(found.controllers[0].controller.card(), 0);
    assert_eq!(found.controllers[1].controller.card(), 10);
    assert_eq!(handles(&found), vec![5, 6]);
}

#[test]
fn an_unknown_device_gets_the_proposed_handle_and_an_entry() {
    let mut store = Config::new("store".to_string());
    let found = reconcile_with(&mut store, &vec![device(0, 3)], &vec![77]);
    assert_eq!(handles(&found), vec![77]);
    assert_eq!(found.startup, vec![]);
    assert_eq!(store.len(), 1);
    assert_eq!(store.entries()[0].handle, 77);
    assert_eq!(store.entries()[0].identifier, identifier(3));
    assert_eq!(store.entries()[0].config, GpuConfig::new());
    let controller = &found.controllers[0].controller;
    assert_eq!(controller.card(), 0);
    assert_eq!(controller.get_config(), GpuConfig::new());
    assert!(!controller.is_fan_control_running());
    assert_eq!(controller.get_info().vendor_data.gpu_model, Some("model 3".to_string()));
}

#[test]
fn a_known_device_keeps_its_handle_and_takes_its_settings() {
    let mut store = Config::new("store".to_string());
    let mut settings = GpuConfig::new();
    settings.power_cap = Some(140);
    settings.fan_control_enabled = true;
    store.insert(5, identifier(1), GpuConfig::new());
    store.insert(11, identifier(3), settings);
    let before = store.clone();
    let found = reconcile_with(&mut store, &vec![device(1, 3)], &vec![77]);
    assert_eq!(handles(&found), vec![11]);
    assert_eq!(store, before);
    let controller = &found.controllers[0].controller;
    assert_eq!(controller.get_config().power_cap, Some(140));
    assert!(controller.is_fan_control_running());
    assert_eq!(
        found.startup,
        vec![DeviceDirectives {
            card: 1,
            directives: vec![HwDirective::SetFanMode(FanMode::Manual)],
        }]
    );
}

#[test]
fn a_known_device_without_fan_control_asks_for_nothing() {
    let mut store = Config::new("store".to_string());
    store.insert(11, identifier(3), GpuConfig::new());
    let found = reconcile_with(&mut store, &vec![device(1, 3)], &vec![]);
    assert_eq!(found.startup, vec![DeviceDirectives { card: 1, directives: vec![] }]);
}

#[test]
fn recognition_takes_the_first_entry_with_the_identifier() {
    let mut store = Config::new("store".to_string());
    store.insert(9, identifier(3), GpuConfig::new());
    store.insert(4, identifier(3), GpuConfig::new());
    let found = reconcile_with(&mut store, &vec![device(0, 3)], &vec![1]);
    assert_eq!(handles(&found), vec![9]);
}

#[test]
fn a_taken_proposal_gives_way_to_the_lowest_free_handle() {
    let mut store = Config::new("store".to_string());
    store.insert(0, identifier(1), GpuConfig::new());
    store.insert(77, identifier(2), GpuConfig::new());
    let found = reconcile_with(
        &mut store,
        &vec![device(0, 3), device(1, 4), device(2, 5)],
        &vec![77, 77, 500],
    );
    assert_eq!(handles(&found), vec![1, 2, 500]);
    assert_eq!(store.len(), 5);
    assert_eq!(store.handle_of(&identifier(4)), Some(2));
}

#[test]
fn missing_proposals_count_as_zero() {
    let mut store = Config::new("store".to_string());
    let found = reconcile_with(&mut store, &vec![device(0, 3), device(1, 4)], &vec![]);
    assert_eq!(handles(&found), vec![0, 1]);
}

#[test]
fn recognition_is_idempotent() {
    let mut store = Config::new("store".to_string());
    store.insert(8, identifier(4), GpuConfig::new());
    let devices = vec![device(0, 3), device(1, 4), device(2, 5)];
    let once = reconcile_with(&mut store, &devices, &vec![100, 200, 300]);
    let left = store.clone();
    let twice = reconcile_with(&mut store, &devices, &vec![400, 500, 600]);
    assert_eq!(handles(&once), vec![100, 8, 300]);
    assert_eq!(handles(&twice), handles(&once));
    assert_eq!(twice.controllers, once.controllers);
    assert_eq!(store, left);
}

#[test]
fn a_directory_is_taken_once() {
    let mut store = Config::new("store".to_string());
    let found = reconcile_with(&mut store, &vec![device(0, 3), device(0, 4)], &vec![1, 2]);
    assert_eq!(handles(&found), vec![1]);
    assert_eq!(store.len(), 1);
}

#[test]
fn a_handle_is_registered_once() {
    let mut store = Config::new("store".to_string());
    let found = reconcile_with(&mut store, &vec![device(0, 3), device(1, 3)], &vec![1, 2]);
    assert_eq!(handles(&found), vec![1]);
    assert_eq!(found.controllers[0].controller.card(), 0);
    assert_eq!(store.len(), 1);
}

#[test]
fn controllers_are_found_by_handle_and_by_directory() {
    let mut store = Config::new("store".to_string());
    let found = reconcile_with(&mut store, &vec![device(0, 3), device(1, 4)], &vec![10, 20]);
    assert_eq!(find_slot(&found.controllers, 20), Some(1));
    assert_eq!(find_slot(&found.controllers, 10), Some(0));
    assert_eq!(find_slot(&found.controllers, 30), None);
    assert!(holds_card(&found.controllers, 1));
    assert!(!holds_card(&found.controllers, 2));
}
