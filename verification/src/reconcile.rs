//! Matching the devices that were found against the store.
//!
//! A device whose identifier the store knows gets the handle and the settings
//! of the first entry that carries the identifier. Any other device gets a
//! new handle and an entry of its own. Handles for new devices are proposed
//! from outside, one per device, and `free_handle` makes of each proposal a
//! handle that no entry has.
//!
//! A device is named by the number of its directory, `card` and the number
//! in decimal; connectors and other entries of the listing name no device.

use crate::config::{
    answers, first_index, free_handle, lemma_a_handle_is_free, lemma_first_index,
    lemma_first_index_is, lemma_index_of_handle, lemma_with_entry_wf, lowest_free, store_wf,
    taken, with_entry, Config, ConfigEntryView, GpuConfig, GpuConfigView, Key,
};
use crate::fan_curve::lemma_default_points_is_curve;
use crate::gpu_controller::{GpuController, GpuControllerView, GpuInfo};
use crate::hw_mon::{directive_views, DeviceDirectives, DeviceDirectivesView, HwDirective};
use crate::text::{digits_of, digits_value, lemma_digits_of, parse_digits, Radix};
use vstd::prelude::*;

verus! {

/// A device as it was found: the number in the name of its directory, and
/// what was read of it.
#[derive(Debug, PartialEq, Eq)]
pub struct DiscoveredGpu {
    pub card: u32,
    pub info: GpuInfo,
}

/// The bytes of `card`, with which the name of a device's directory starts.
pub open spec fn card_prefix() -> Seq<u8> {
    seq![0x63u8, 0x61u8, 0x72u8, 0x64u8]
}

/// The device that a directory name stands for: the name must be `card` and
/// after it one or more decimal digits and nothing else, and the digits are
/// the number of the device. A number beyond 32 bits names no device.
pub open spec fn card_in(name: Seq<u8>) -> Option<u32> {
    if name.len() >= 4 && name.subrange(0, 4) == card_prefix() {
        match digits_value(name.subrange(4, name.len() as int), Radix::Decimal) {
            Some(v) => if v <= u32::MAX {
                Some(v as u32)
            } else {
                None
            },
            None => None,
        }
    } else {
        None
    }
}

/// The device that the directory `name` stands for, if it stands for one.
pub fn card_of_entry(name: &[u8]) -> (r: Option<u32>)
    ensures
        r == card_in(name@),
{
    if name.len() >= 4 && name[0] == 0x63 && name[1] == 0x61 && name[2] == 0x72 && name[3]
        == 0x64 {
        assert(name@.subrange(0, 4) =~= card_prefix());
        match parse_digits(name, 4, name.len(), Radix::Decimal) {
            Some(v) => {
                if v <= 0xffff_ffff {
                    Some(v as u32)
                } else {
                    None
                }
            },
            None => None,
        }
    } else {
        proof {
            if name@.len() >= 4 && name@.subrange(0, 4) == card_prefix() {
                assert(name@.subrange(0, 4)[0] == name@[0]);
                assert(name@.subrange(0, 4)[1] == name@[1]);
                assert(name@.subrange(0, 4)[2] == name@[2]);
                assert(name@.subrange(0, 4)[3] == name@[3]);
            }
        }
        None
    }
}

/// The name that a device's directory has reads back as the device's
/// number: `card` and the number in decimal.
pub proof fn lemma_card_name_reads_back(card: u32)
    ensures
        card_in(card_prefix() + digits_of(card as nat)) == Some(card),
{
    let digits = digits_of(card as nat);
    let name = card_prefix() + digits;
    lemma_digits_of(card as nat);
    assert(name.subrange(0, 4) =~= card_prefix());
    assert(name.subrange(4, name.len() as int) =~= digits);
}

/// A controller and the handle under which it is registered.
#[derive(Debug, PartialEq, Eq)]
pub struct ControllerSlot {
    pub handle: u32,
    pub controller: GpuController,
}

/// A registered controller as plain values.
pub struct SlotView {
    pub handle: u32,
    pub controller: GpuControllerView,
}

impl View for ControllerSlot {
    type V = SlotView;

    open spec fn view(&self) -> SlotView {
        SlotView { handle: self.handle, controller: self.controller@ }
    }
}

/// The registered controllers of a vector as plain values.
pub open spec fn slot_views(v: Seq<ControllerSlot>) -> Seq<SlotView> {
    v.map_values(|s: ControllerSlot| s@)
}

/// Whether a controller is registered under `handle`.
pub open spec fn registered(slots: Seq<SlotView>, handle: u32) -> bool {
    exists|i: int| 0 <= i < slots.len() && slots[i].handle == handle
}

/// Whether a controller holds the directory `card`.
pub open spec fn card_held(slots: Seq<SlotView>, card: u32) -> bool {
    exists|i: int| 0 <= i < slots.len() && slots[i].controller.card == card
}

/// The index of the controller registered under `handle`.
pub open spec fn slot_index(slots: Seq<SlotView>, handle: u32) -> int {
    choose|i: int| 0 <= i < slots.len() && slots[i].handle == handle
}

/// No handle and no directory occurs twice, and every controller is valid.
pub open spec fn slots_wf(slots: Seq<SlotView>) -> bool {
    &&& forall|i: int, j: int| 0 <= i < j < slots.len() ==> slots[i].handle != slots[j].handle
    &&& forall|i: int, j: int|
        0 <= i < j < slots.len() ==> slots[i].controller.card != slots[j].controller.card
    &&& forall|i: int| 0 <= i < slots.len() ==> (#[trigger] slots[i]).controller.wf()
}

/// How far a reconciliation has come: the store's entries, the controllers
/// registered, and for each device that took over stored settings the
/// directives that put them in force.
pub struct Reconciled {
    pub entries: Seq<ConfigEntryView>,
    pub slots: Seq<SlotView>,
    pub startup: Seq<DeviceDirectivesView>,
}

/// The proposal for the device at `index`; `0` where the proposals run out.
pub open spec fn draw_at(draws: Seq<u32>, index: int) -> u32 {
    if 0 <= index < draws.len() {
        draws[index]
    } else {
        0
    }
}

/// Takes one device in.
///
/// A device whose directory is held already is passed over. A device that
/// the store knows takes the handle and the settings of the first entry with
/// its identifier, unless a controller is registered under that handle
/// already. A device that the store does not know gets the handle that
/// `free_handle` makes of `draw` and an entry with the settings of a device
/// seen for the first time; where every handle is taken it is passed over.
pub open spec fn reconcile_one(state: Reconciled, device: DiscoveredGpu, draw: u32) -> Reconciled {
    let fresh = GpuControllerView::fresh(device.card, device.info);
    let k = first_index(state.entries, Key::Identifier(device.info.identifier));
    if card_held(state.slots, device.card) {
        state
    } else if k < state.entries.len() {
        let entry = state.entries[k];
        if registered(state.slots, entry.handle) {
            state
        } else {
            let plan = fresh.load_config(entry.config);
            Reconciled {
                entries: state.entries,
                slots: state.slots.push(SlotView { handle: entry.handle, controller: plan.next }),
                startup: state.startup.push(
                    DeviceDirectivesView { card: device.card, directives: plan.directives },
                ),
            }
        }
    } else {
        match free_handle(state.entries, draw) {
            Some(handle) => Reconciled {
                entries: state.entries.push(
                    ConfigEntryView {
                        handle,
                        identifier: device.info.identifier,
                        config: fresh.config,
                    },
                ),
                slots: state.slots.push(SlotView { handle, controller: fresh }),
                startup: state.startup,
            },
            None => state,
        }
    }
}

/// Takes the devices in, first to last, starting from a store with
/// `entries` and no controller.
pub open spec fn reconcile(
    entries: Seq<ConfigEntryView>,
    devices: Seq<DiscoveredGpu>,
    draws: Seq<u32>,
) -> Reconciled
    decreases devices.len(),
{
    if devices.len() == 0 {
        Reconciled { entries, slots: Seq::empty(), startup: Seq::empty() }
    } else {
        reconcile_one(
            reconcile(entries, devices.drop_last(), draws),
            devices.last(),
            draw_at(draws, devices.len() - 1),
        )
    }
}

/// The store has an entry under the handle of `slot`, and the entry carries
/// the identifier of the slot's device.
pub open spec fn follows(slot: SlotView, entries: Seq<ConfigEntryView>) -> bool {
    taken(entries, slot.handle) && entries[first_index(
        entries,
        Key::Handle(slot.handle),
    )].identifier == slot.controller.identifier()
}

/// The store has an entry under the handle of `slot`, and the entry carries
/// the identifier of the slot's device and the settings of its controller.
pub open spec fn agrees(slot: SlotView, entries: Seq<ConfigEntryView>) -> bool {
    follows(slot, entries) && entries[first_index(entries, Key::Handle(slot.handle))].config
        == slot.controller.config
}

/// Every registered controller has its entry in the store, and the entry
/// holds the controller's settings.
pub open spec fn slots_agree_with_store(
    slots: Seq<SlotView>,
    entries: Seq<ConfigEntryView>,
) -> bool {
    forall|i: int| 0 <= i < slots.len() ==> agrees(#[trigger] slots[i], entries)
}

/// Every registered controller has its entry in the store: the handle is a
/// handle of the store, and stands there for the controller's device.
pub open spec fn slots_follow_store(slots: Seq<SlotView>, entries: Seq<ConfigEntryView>) -> bool {
    forall|i: int| 0 <= i < slots.len() ==> follows(#[trigger] slots[i], entries)
}

/// What was found out of a reconciliation.
#[derive(Debug, PartialEq, Eq)]
pub struct Reconciliation {
    pub controllers: Vec<ControllerSlot>,
    pub startup: Vec<DeviceDirectives>,
}

/// An entry that answers a key keeps answering it when entries are appended.
pub proof fn lemma_first_index_push(entries: Seq<ConfigEntryView>, e: ConfigEntryView, key: Key)
    ensures
        first_index(entries.push(e), key) == (if first_index(entries, key) < entries.len() {
            first_index(entries, key)
        } else if answers(e, key) {
            entries.len() as int
        } else {
            entries.len() as int + 1
        }),
{
    let k = first_index(entries, key);
    lemma_first_index(entries, key);
    let after = entries.push(e);
    assert forall|i: int| 0 <= i < k implies !answers(#[trigger] after[i], key) by {
        assert(after[i] == entries[i]);
    }
    if k < entries.len() {
        assert(after[k] == entries[k]);
        lemma_first_index_is(after, key, k);
    } else if answers(e, key) {
        assert(after[k] == e);
        lemma_first_index_is(after, key, k);
    } else {
        assert(after[k] == e);
        lemma_first_index_is(after, key, k + 1);
    }
}

/// A handle that `free_handle` gives is free.
pub proof fn lemma_free_handle_is_free(entries: Seq<ConfigEntryView>, candidate: u32)
    ensures
        free_handle(entries, candidate) is Some ==> !taken(
            entries,
            free_handle(entries, candidate).unwrap(),
        ),
{
    if taken(entries, candidate) && !(forall|h: u32| taken(entries, h)) {
        let w = choose|h: u32| !taken(entries, h);
        lemma_lowest_free_exists(entries, w);
    }
}

/// Where a handle is free, a lowest free handle exists.
proof fn lemma_lowest_free_exists(entries: Seq<ConfigEntryView>, w: u32)
    requires
        !taken(entries, w),
    ensures
        exists|h: u32| lowest_free(entries, h),
    decreases w,
{
    if forall|g: u32| g < w ==> taken(entries, g) {
        assert(lowest_free(entries, w));
    } else {
        let g = choose|g: u32| g < w && !taken(entries, g);
        lemma_lowest_free_exists(entries, g);
    }
}

/// Taking a device in keeps store and controllers valid, and keeps every
/// registered controller's entry in the store, with the controller's
/// settings.
pub proof fn lemma_reconcile_one_wf(state: Reconciled, device: DiscoveredGpu, draw: u32)
    requires
        store_wf(state.entries),
        slots_wf(state.slots),
        slots_agree_with_store(state.slots, state.entries),
    ensures
        store_wf(reconcile_one(state, device, draw).entries),
        slots_wf(reconcile_one(state, device, draw).slots),
        slots_agree_with_store(
            reconcile_one(state, device, draw).slots,
            reconcile_one(state, device, draw).entries,
        ),
{
    let next = reconcile_one(state, device, draw);
    let fresh = GpuControllerView::fresh(device.card, device.info);
    let key = Key::Identifier(device.info.identifier);
    let k = first_index(state.entries, key);
    lemma_first_index(state.entries, key);
    lemma_default_points_is_curve();
    if card_held(state.slots, device.card) {
    } else if k < state.entries.len() {
        let entry = state.entries[k];
        if !registered(state.slots, entry.handle) {
            let slot = SlotView {
                handle: entry.handle,
                controller: fresh.load_config(entry.config).next,
            };
            lemma_push_slot_wf(state.slots, slot);
            lemma_index_of_handle(state.entries, k);
            assert forall|i: int| 0 <= i < next.slots.len() implies agrees(
                #[trigger] next.slots[i],
                next.entries,
            ) by {
                if i < state.slots.len() {
                    assert(next.slots[i] == state.slots[i]);
                }
            }
        }
    } else {
        lemma_free_handle_is_free(state.entries, draw);
        match free_handle(state.entries, draw) {
            Some(handle) => {
                let e = ConfigEntryView {
                    handle,
                    identifier: device.info.identifier,
                    config: fresh.config,
                };
                assert(with_entry(state.entries, e) == state.entries.push(e));
                lemma_with_entry_wf(state.entries, e);
                let slot = SlotView { handle, controller: fresh };
                assert(!registered(state.slots, handle)) by {
                    if registered(state.slots, handle) {
                        let i = slot_index(state.slots, handle);
                        assert(agrees(state.slots[i], state.entries));
                    }
                }
                lemma_push_slot_wf(state.slots, slot);
                assert forall|i: int| 0 <= i < next.slots.len() implies agrees(
                    #[trigger] next.slots[i],
                    next.entries,
                ) by {
                    lemma_first_index_push(state.entries, e, Key::Handle(next.slots[i].handle));
                    if i < state.slots.len() {
                        assert(next.slots[i] == state.slots[i]);
                        assert(agrees(state.slots[i], state.entries));
                        lemma_first_index(state.entries, Key::Handle(state.slots[i].handle));
                    } else {
                        lemma_first_index(state.entries, Key::Handle(handle));
                    }
                }
            },
            None => {},
        }
    }
}

/// Registering a valid controller under a new handle and a new directory
/// keeps the controllers valid.
pub proof fn lemma_push_slot_wf(slots: Seq<SlotView>, slot: SlotView)
    requires
        slots_wf(slots),
        !registered(slots, slot.handle),
        !card_held(slots, slot.controller.card),
        slot.controller.wf(),
    ensures
        slots_wf(slots.push(slot)),
{
    let after = slots.push(slot);
    assert forall|i: int, j: int| 0 <= i < j < after.len() implies after[i].handle
        != after[j].handle && after[i].controller.card != after[j].controller.card by {
        assert(after[i] == slots[i]);
        if j < slots.len() {
            assert(after[j] == slots[j]);
        }
    }
    assert forall|i: int| 0 <= i < after.len() implies (#[trigger] after[i]).controller.wf() by {
        if i < slots.len() {
            assert(after[i] == slots[i]);
        }
    }
}

/// A reconciliation keeps store and controllers valid.
pub proof fn lemma_reconcile_wf(
    entries: Seq<ConfigEntryView>,
    devices: Seq<DiscoveredGpu>,
    draws: Seq<u32>,
)
    requires
        store_wf(entries),
    ensures
        store_wf(reconcile(entries, devices, draws).entries),
        slots_wf(reconcile(entries, devices, draws).slots),
        slots_agree_with_store(
            reconcile(entries, devices, draws).slots,
            reconcile(entries, devices, draws).entries,
        ),
    decreases devices.len(),
{
    if devices.len() > 0 {
        lemma_reconcile_wf(entries, devices.drop_last(), draws);
        lemma_reconcile_one_wf(
            reconcile(entries, devices.drop_last(), draws),
            devices.last(),
            draw_at(draws, devices.len() - 1),
        );
    }
}

/// No two devices carry the same identifier.
pub open spec fn distinct_identifiers(devices: Seq<DiscoveredGpu>) -> bool {
    forall|i: int, j: int|
        0 <= i < j < devices.len() ==> devices[i].info.identifier != devices[j].info.identifier
}

/// `longer` starts with the entries of `shorter`.
pub open spec fn extends(longer: Seq<ConfigEntryView>, shorter: Seq<ConfigEntryView>) -> bool {
    shorter.len() <= longer.len() && forall|i: int|
        0 <= i < shorter.len() ==> longer[i] == shorter[i]
}

/// Entry `e` carries the identifier of the device at index `j`.
pub open spec fn brought_by(e: ConfigEntryView, devices: Seq<DiscoveredGpu>, j: int) -> bool {
    e.identifier == devices[j].info.identifier
}

/// Entry `e` carries the identifier of one of the devices from index `n` up
/// to index `m`.
pub open spec fn brought_within(
    e: ConfigEntryView,
    devices: Seq<DiscoveredGpu>,
    n: int,
    m: int,
) -> bool {
    exists|j: int| n <= j < m && #[trigger] brought_by(e, devices, j)
}

/// Taking in the first `n + 1` devices is taking in the first `n` and then
/// the device at index `n`.
proof fn lemma_run_step(
    entries: Seq<ConfigEntryView>,
    devices: Seq<DiscoveredGpu>,
    draws: Seq<u32>,
    n: int,
)
    requires
        0 <= n < devices.len(),
    ensures
        reconcile(entries, devices.subrange(0, n + 1), draws) == reconcile_one(
            reconcile(entries, devices.subrange(0, n), draws),
            devices[n],
            draw_at(draws, n),
        ),
{
    let upto = devices.subrange(0, n + 1);
    assert(upto.drop_last() == devices.subrange(0, n));
    assert(upto.last() == devices[n]);
}

/// A reconciliation only ever appends to the store, and what it appends
/// while it takes in the devices from index `n` up to index `m` carries the
/// identifier of one of those devices.
proof fn lemma_entries_grow(
    entries: Seq<ConfigEntryView>,
    devices: Seq<DiscoveredGpu>,
    draws: Seq<u32>,
    n: int,
    m: int,
)
    requires
        0 <= n <= m <= devices.len(),
    ensures
        ({
            let a = reconcile(entries, devices.subrange(0, n), draws).entries;
            let b = reconcile(entries, devices.subrange(0, m), draws).entries;
            &&& extends(b, a)
            &&& forall|i: int|
                a.len() <= i < b.len() ==> brought_within(#[trigger] b[i], devices, n, m)
        }),
    decreases m - n,
{
    if n < m {
        lemma_entries_grow(entries, devices, draws, n, m - 1);
        lemma_run_step(entries, devices, draws, m - 1);
        let a = reconcile(entries, devices.subrange(0, n), draws).entries;
        let mid = reconcile(entries, devices.subrange(0, m - 1), draws).entries;
        let b = reconcile(entries, devices.subrange(0, m), draws).entries;
        assert(extends(b, mid));
        assert forall|i: int| a.len() <= i < b.len() implies brought_within(
            #[trigger] b[i],
            devices,
            n,
            m,
        ) by {
            if i < mid.len() {
                assert(brought_within(mid[i], devices, n, m - 1));
                let j = choose|j: int| n <= j < m - 1 && #[trigger] brought_by(mid[i], devices, j);
                assert(b[i] == mid[i]);
                assert(brought_by(b[i], devices, j));
            } else {
                assert(brought_by(b[i], devices, m - 1));
            }
        }
    }
}

/// The first entry that answers a key is still the first when entries are
/// appended.
proof fn lemma_first_index_extends(
    shorter: Seq<ConfigEntryView>,
    longer: Seq<ConfigEntryView>,
    key: Key,
)
    requires
        extends(longer, shorter),
        first_index(shorter, key) < shorter.len(),
    ensures
        first_index(longer, key) == first_index(shorter, key),
{
    let k = first_index(shorter, key);
    lemma_first_index(shorter, key);
    assert forall|i: int| 0 <= i < k implies !answers(#[trigger] longer[i], key) by {
        assert(longer[i] == shorter[i]);
    }
    assert(longer[k] == shorter[k]);
    lemma_first_index_is(longer, key, k);
}

/// Loading the settings of a device seen for the first time into a
/// controller that was just made changes nothing and asks for nothing.
proof fn lemma_load_fresh(card: u32, info: GpuInfo)
    ensures
        GpuControllerView::fresh(card, info).load_config(GpuConfigView::fresh()).next
            == GpuControllerView::fresh(card, info),
        GpuControllerView::fresh(card, info).load_config(GpuConfigView::fresh()).directives
            == Seq::<HwDirective>::empty(),
{
}

/// A second reconciliation over the store that the first one left finds
/// every device where the first one put it.
proof fn lemma_second_run(
    entries: Seq<ConfigEntryView>,
    devices: Seq<DiscoveredGpu>,
    first: Seq<u32>,
    second: Seq<u32>,
    n: int,
)
    requires
        store_wf(entries),
        distinct_identifiers(devices),
        0 <= n <= devices.len(),
    ensures
        ({
            let left = reconcile(entries, devices, first).entries;
            let once = reconcile(entries, devices.subrange(0, n), first);
            let twice = reconcile(left, devices.subrange(0, n), second);
            twice.entries == left && twice.slots == once.slots
        }),
    decreases n,
{
    let left = reconcile(entries, devices, first).entries;
    assert(devices.subrange(0, devices.len() as int) == devices);
    if n > 0 {
        lemma_second_run(entries, devices, first, second, n - 1);
        lemma_run_step(entries, devices, first, n - 1);
        lemma_run_step(left, devices, second, n - 1);
        let a0 = reconcile(entries, devices.subrange(0, n - 1), first);
        let a1 = reconcile(entries, devices.subrange(0, n), first);
        let b0 = reconcile(left, devices.subrange(0, n - 1), second);
        let d = devices[n - 1];
        let draw = draw_at(first, n - 1);
        lemma_entries_grow(entries, devices, first, n - 1, devices.len() as int);
        lemma_entries_grow(entries, devices, first, n, devices.len() as int);
        lemma_reconcile_wf(entries, devices.subrange(0, n - 1), first);
        let key = Key::Identifier(d.info.identifier);
        let k = first_index(a0.entries, key);
        lemma_first_index(a0.entries, key);
        if card_held(a0.slots, d.card) {
        } else if k < a0.entries.len() {
            lemma_first_index_extends(a0.entries, left, key);
            assert(left[k] == a0.entries[k]);
        } else {
            match free_handle(a0.entries, draw) {
                Some(handle) => {
                    let p = a0.entries.len() as int;
                    assert(a1.entries[p] == left[p]);
                    assert forall|i: int| 0 <= i < p implies !answers(
                        #[trigger] left[i],
                        key,
                    ) by {
                        assert(left[i] == a0.entries[i]);
                    }
                    lemma_first_index_is(left, key, p);
                    lemma_free_handle_is_free(a0.entries, draw);
                    assert(!registered(a0.slots, handle)) by {
                        if registered(a0.slots, handle) {
                            let i = slot_index(a0.slots, handle);
                            assert(agrees(a0.slots[i], a0.entries));
                        }
                    }
                    lemma_load_fresh(d.card, d.info);
                },
                None => {
                    assert(a1 == a0);
                    assert forall|i: int| 0 <= i < left.len() implies !answers(
                        #[trigger] left[i],
                        key,
                    ) by {
                        if i < a0.entries.len() {
                            assert(left[i] == a0.entries[i]);
                        } else {
                            assert(brought_within(left[i], devices, n, devices.len() as int));
                            let j = choose|j: int|
                                n <= j < devices.len() && #[trigger] brought_by(
                                    left[i],
                                    devices,
                                    j,
                                );
                            assert(devices[n - 1].info.identifier != devices[j].info.identifier);
                        }
                    }
                    lemma_first_index_is(left, key, left.len() as int);
                    assert forall|h: u32| taken(left, h) by {
                        assert(taken(a0.entries, h));
                        lemma_first_index_extends(a0.entries, left, Key::Handle(h));
                    }
                },
            }
        }
    }
}

/// Recognition is idempotent: where no two devices carry the same
/// identifier, a second reconciliation over the store that the first one
/// left registers every device under the handle that the first one gave it,
/// whatever handles are proposed, and adds nothing to the store.
pub proof fn lemma_recognition_is_idempotent(
    entries: Seq<ConfigEntryView>,
    devices: Seq<DiscoveredGpu>,
    first: Seq<u32>,
    second: Seq<u32>,
)
    requires
        store_wf(entries),
        distinct_identifiers(devices),
    ensures
        ({
            let once = reconcile(entries, devices, first);
            let twice = reconcile(once.entries, devices, second);
            twice.entries == once.entries && twice.slots == once.slots
        }),
{
    lemma_second_run(entries, devices, first, second, devices.len() as int);
    assert(devices.subrange(0, devices.len() as int) == devices);
}

/// No two devices lie in the same directory.
pub open spec fn distinct_cards(devices: Seq<DiscoveredGpu>) -> bool {
    forall|i: int, j: int| 0 <= i < j < devices.len() ==> devices[i].card != devices[j].card
}

/// The controller in `slot` is the controller of `device`.
pub open spec fn controls(slot: SlotView, device: DiscoveredGpu) -> bool {
    slot.controller.card == device.card && slot.controller.info == device.info
}

/// Taking in the first `n` devices registers each of them, in their order.
/// From an empty store each of them also gets an entry of its own.
proof fn lemma_registers_prefix(
    entries: Seq<ConfigEntryView>,
    devices: Seq<DiscoveredGpu>,
    draws: Seq<u32>,
    n: int,
)
    requires
        store_wf(entries),
        distinct_identifiers(devices),
        distinct_cards(devices),
        entries.len() + devices.len() <= u32::MAX,
        0 <= n <= devices.len(),
    ensures
        ({
            let state = reconcile(entries, devices.subrange(0, n), draws);
            &&& state.slots.len() == n
            &&& forall|j: int| 0 <= j < n ==> controls(#[trigger] state.slots[j], devices[j])
            &&& state.entries.len() <= entries.len() + n
            &&& entries.len() == 0 ==> state.entries.len() == n && forall|j: int|
                0 <= j < n ==> brought_by(#[trigger] state.entries[j], devices, j)
        }),
    decreases n,
{
    if n > 0 {
        lemma_registers_prefix(entries, devices, draws, n - 1);
        lemma_run_step(entries, devices, draws, n - 1);
        lemma_reconcile_wf(entries, devices.subrange(0, n - 1), draws);
        let s0 = reconcile(entries, devices.subrange(0, n - 1), draws);
        let s1 = reconcile(entries, devices.subrange(0, n), draws);
        let d = devices[n - 1];
        let draw = draw_at(draws, n - 1);
        let key = Key::Identifier(d.info.identifier);
        let k = first_index(s0.entries, key);
        lemma_first_index(s0.entries, key);
        assert(!card_held(s0.slots, d.card)) by {
            if card_held(s0.slots, d.card) {
                let i = choose|i: int|
                    0 <= i < s0.slots.len() && s0.slots[i].controller.card == d.card;
                assert(controls(s0.slots[i], devices[i]));
                assert(devices[i].card != devices[n - 1].card);
            }
        }
        if k < s0.entries.len() {
            let entry = s0.entries[k];
            assert(!registered(s0.slots, entry.handle)) by {
                if registered(s0.slots, entry.handle) {
                    let j = slot_index(s0.slots, entry.handle);
                    assert(agrees(s0.slots[j], s0.entries));
                    assert(controls(s0.slots[j], devices[j]));
                    lemma_index_of_handle(s0.entries, k);
                    assert(devices[j].info.identifier != devices[n - 1].info.identifier);
                }
            }
            if entries.len() == 0 {
                assert(brought_by(s0.entries[k], devices, k));
                assert(devices[k].info.identifier != devices[n - 1].info.identifier);
            }
            assert(s1.slots == s0.slots.push(s1.slots[n - 1]));
        } else {
            lemma_a_handle_is_free(s0.entries, s0.entries.len());
            let w = choose|h: u32| h <= s0.entries.len() && !taken(s0.entries, h);
            assert(!taken(s0.entries, w));
            assert(free_handle(s0.entries, draw) is Some);
            assert(s1.slots == s0.slots.push(s1.slots[n - 1]));
            assert(s1.entries == s0.entries.push(s1.entries[s0.entries.len() as int]));
        }
        assert forall|j: int| 0 <= j < n implies controls(#[trigger] s1.slots[j], devices[j]) by {
            if j < n - 1 {
                assert(s1.slots[j] == s0.slots[j]);
            }
        }
        if entries.len() == 0 {
            assert forall|j: int| 0 <= j < n implies brought_by(
                #[trigger] s1.entries[j],
                devices,
                j,
            ) by {
                if j < n - 1 {
                    assert(s1.entries[j] == s0.entries[j]);
                }
            }
        }
    }
}

/// Every device gets a controller: where no two devices lie in the same
/// directory or carry the same identifier, and the store has handles to
/// spare, a reconciliation registers a controller for each device, in the
/// order of the devices, and the store holds an entry with the identifier
/// and the settings of each. From an empty store the entries are as many as
/// the devices.
pub proof fn lemma_every_device_is_registered(
    entries: Seq<ConfigEntryView>,
    devices: Seq<DiscoveredGpu>,
    draws: Seq<u32>,
)
    requires
        store_wf(entries),
        distinct_identifiers(devices),
        distinct_cards(devices),
        entries.len() + devices.len() <= u32::MAX,
    ensures
        ({
            let done = reconcile(entries, devices, draws);
            &&& done.slots.len() == devices.len()
            &&& forall|j: int|
                0 <= j < devices.len() ==> controls(#[trigger] done.slots[j], devices[j])
                    && agrees(done.slots[j], done.entries)
            &&& entries.len() == 0 ==> done.entries.len() == devices.len()
        }),
{
    assert(devices.subrange(0, devices.len() as int) == devices);
    lemma_registers_prefix(entries, devices, draws, devices.len() as int);
    lemma_reconcile_wf(entries, devices, draws);
}

/// The index of the controller registered under `handle`, if there is one.
pub fn find_slot(slots: &Vec<ControllerSlot>, handle: u32) -> (r: Option<usize>)
    requires
        slots_wf(slot_views(slots@)),
    ensures
        r is Some <==> registered(slot_views(slots@), handle),
        r is Some ==> r.unwrap() == slot_index(slot_views(slots@), handle) && r.unwrap()
            < slots@.len() && slots@[r.unwrap() as int].handle == handle,
{
    let mut k: usize = 0;
    while k < slots.len()
        invariant
            k <= slots.len(),
            slots_wf(slot_views(slots@)),
            forall|i: int| 0 <= i < k ==> slot_views(slots@)[i].handle != handle,
        decreases slots.len() - k,
    {
        if slots[k].handle == handle {
            proof {
                let views = slot_views(slots@);
                assert(views[k as int].handle == handle);
                let c = slot_index(views, handle);
                assert(0 <= c < views.len() && views[c].handle == handle);
                if c != k {
                    if c < k {
                        assert(views[c].handle != views[k as int].handle);
                    } else {
                        assert(views[k as int].handle != views[c].handle);
                    }
                }
            }
            return Some(k);
        }
        k += 1;
    }
    None
}

/// Whether a controller holds the directory `card`.
pub fn holds_card(slots: &Vec<ControllerSlot>, card: u32) -> (r: bool)
    ensures
        r == card_held(slot_views(slots@), card),
{
    let mut k: usize = 0;
    while k < slots.len()
        invariant
            k <= slots.len(),
            forall|i: int| 0 <= i < k ==> slot_views(slots@)[i].controller.card != card,
        decreases slots.len() - k,
    {
        if slots[k].controller.card() == card {
            assert(slot_views(slots@)[k as int].controller.card == card);
            return true;
        }
        k += 1;
    }
    false
}

/// Takes the devices in, first to last, with `draws` as the proposals for
/// new handles.
pub fn reconcile_with(config: &mut Config, devices: &Vec<DiscoveredGpu>, draws: &Vec<u32>) -> (r:
    Reconciliation)
    requires
        old(config).wf(),
    ensures
        ({
            let done = reconcile(old(config)@.entries, devices@, draws@);
            &&& final(config)@ == old(config)@.with_entries(done.entries)
            &&& slot_views(r.controllers@) == done.slots
            &&& directive_views(r.startup@) == done.startup
        }),
        final(config).wf(),
        slots_wf(slot_views(r.controllers@)),
        slots_agree_with_store(slot_views(r.controllers@), final(config)@.entries),
{
    let mut controllers: Vec<ControllerSlot> = Vec::new();
    let mut startup: Vec<DeviceDirectives> = Vec::new();
    let mut i: usize = 0;
    proof {
        assert(devices@.subrange(0, 0) =~= Seq::<DiscoveredGpu>::empty());
        assert(slot_views(controllers@) =~= Seq::<SlotView>::empty());
        assert(directive_views(startup@) =~= Seq::<DeviceDirectivesView>::empty());
        assert(config@ == old(config)@.with_entries(old(config)@.entries));
    }
    while i < devices.len()
        invariant
            i <= devices.len(),
            config.wf(),
            ({
                let done = reconcile(old(config)@.entries, devices@.subrange(0, i as int), draws@);
                &&& config@ == old(config)@.with_entries(done.entries)
                &&& slot_views(controllers@) == done.slots
                &&& directive_views(startup@) == done.startup
                &&& slots_wf(done.slots)
                &&& slots_agree_with_store(done.slots, done.entries)
            }),
        decreases devices.len() - i,
    {
        let ghost before = reconcile(old(config)@.entries, devices@.subrange(0, i as int), draws@);
        let ghost seen = slot_views(controllers@);
        let ghost queued = directive_views(startup@);
        let device = &devices[i];
        let draw: u32 = if i < draws.len() {
            draws[i]
        } else {
            0
        };
        proof {
            let upto = devices@.subrange(0, i as int + 1);
            assert(upto.drop_last() == devices@.subrange(0, i as int));
            assert(upto.last() == *device);
            assert(reconcile(old(config)@.entries, upto, draws@) == reconcile_one(
                before,
                *device,
                draw,
            ));
            lemma_reconcile_one_wf(before, *device, draw);
        }
        if !holds_card(&controllers, device.card) {
            let identifier = device.info.identifier;
            let k = config.position(&Key::Identifier(identifier));
            if k < config.len() {
                let entry = config.entry_at(k);
                if find_slot(&controllers, entry.handle).is_none() {
                    let mut controller = GpuController::new(
                        device.card,
                        device.info.clone(),
                        GpuConfig::new(),
                    );
                    assert(entry@.config.wf());
                    let directives = controller.load_config(&entry.config);
                    let slot = ControllerSlot { handle: entry.handle, controller };
                    let queue = DeviceDirectives { card: device.card, directives };
                    proof {
                        assert(slot_views(controllers@.push(slot)) =~= seen.push(slot@));
                        assert(directive_views(startup@.push(queue)) =~= queued.push(queue@));
                    }
                    controllers.push(slot);
                    startup.push(queue);
                }
            } else {
                match config.assign_handle(draw) {
                    Some(handle) => {
                        let controller = GpuController::new(
                            device.card,
                            device.info.clone(),
                            GpuConfig::new(),
                        );
                        proof {
                            lemma_free_handle_is_free(config@.entries, draw);
                        }
                        config.insert(handle, identifier, controller.get_config());
                        let slot = ControllerSlot { handle, controller };
                        proof {
                            assert(slot_views(controllers@.push(slot)) =~= seen.push(slot@));
                        }
                        controllers.push(slot);
                    },
                    None => {},
                }
            }
        }
        i += 1;
    }
    proof {
        assert(devices@.subrange(0, i as int) == devices@);
    }
    Reconciliation { controllers, startup }
}

} // verus!
