//! What is remembered of each device, and the store that keeps it.
//!
//! The store is a list of entries in the order in which devices were first
//! seen. No handle occurs twice. Looking a device up by its identifier takes
//! the first entry that carries it, so recognition does not depend on
//! anything but the store's contents.

use crate::fan_curve::{default_points, is_curve, CurvePoint, FanCurve};
use crate::identifier::GpuIdentifier;
use vstd::prelude::*;

verus! {

/// How the device picks its performance level.
#[derive(Clone, Copy, Debug, PartialEq, Eq, Structural)]
pub enum PowerProfile {
    Auto,
    Low,
    High,
}

/// A ceiling for the core clock, with an optional voltage to go with it.
#[derive(Clone, Copy, Debug, PartialEq, Eq)]
pub struct MaxPowerState {
    pub clockspeed: i64,
    pub voltage: Option<i64>,
}

/// The settings of one device.
///
/// `gpu_max_power_state` and `vram_max_clock` are clock edits that have been
/// staged and not yet committed.
#[derive(Debug, PartialEq, Eq)]
pub struct GpuConfig {
    pub fan_control_enabled: bool,
    pub fan_curve: FanCurve,
    pub power_cap: Option<i64>,
    pub power_profile: PowerProfile,
    pub gpu_max_power_state: Option<MaxPowerState>,
    pub vram_max_clock: Option<i64>,
}

/// The settings of one device as plain values.
pub struct GpuConfigView {
    pub fan_control_enabled: bool,
    pub fan_curve: Seq<CurvePoint>,
    pub power_cap: Option<i64>,
    pub power_profile: PowerProfile,
    pub gpu_max_power_state: Option<MaxPowerState>,
    pub vram_max_clock: Option<i64>,
}

impl GpuConfigView {
    /// Settings are valid when their fan curve is a curve.
    pub open spec fn wf(self) -> bool {
        is_curve(self.fan_curve)
    }

    /// The settings of a device that is seen for the first time.
    pub open spec fn fresh() -> GpuConfigView {
        GpuConfigView {
            fan_control_enabled: false,
            fan_curve: default_points(),
            power_cap: None,
            power_profile: PowerProfile::Auto,
            gpu_max_power_state: None,
            vram_max_clock: None,
        }
    }

    /// Whether a clock edit is waiting for a commit.
    pub open spec fn has_staged_edits(self) -> bool {
        self.gpu_max_power_state is Some || self.vram_max_clock is Some
    }
}

impl View for GpuConfig {
    type V = GpuConfigView;

    open spec fn view(&self) -> GpuConfigView {
        GpuConfigView {
            fan_control_enabled: self.fan_control_enabled,
            fan_curve: self.fan_curve@,
            power_cap: self.power_cap,
            power_profile: self.power_profile,
            gpu_max_power_state: self.gpu_max_power_state,
            vram_max_clock: self.vram_max_clock,
        }
    }
}

impl Clone for GpuConfig {
    fn clone(&self) -> (r: Self)
        ensures
            r@ == self@,
    {
        GpuConfig {
            fan_control_enabled: self.fan_control_enabled,
            fan_curve: self.fan_curve.clone(),
            power_cap: self.power_cap,
            power_profile: self.power_profile,
            gpu_max_power_state: self.gpu_max_power_state,
            vram_max_clock: self.vram_max_clock,
        }
    }
}

impl GpuConfig {
    /// The invariant of the type.
    pub open spec fn wf(&self) -> bool {
        self@.wf()
    }

    /// The settings of a device that is seen for the first time.
    pub fn new() -> (r: GpuConfig)
        ensures
            r@ == GpuConfigView::fresh(),
            r.wf(),
    {
        GpuConfig {
            fan_control_enabled: false,
            fan_curve: FanCurve::default_curve(),
            power_cap: None,
            power_profile: PowerProfile::Auto,
            gpu_max_power_state: None,
            vram_max_clock: None,
        }
    }
}

/// One entry of the store: a handle, the device it stands for, and the
/// device's settings.
#[derive(Debug, PartialEq, Eq)]
pub struct ConfigEntry {
    pub handle: u32,
    pub identifier: GpuIdentifier,
    pub config: GpuConfig,
}

/// An entry as plain values.
pub struct ConfigEntryView {
    pub handle: u32,
    pub identifier: GpuIdentifier,
    pub config: GpuConfigView,
}

impl View for ConfigEntry {
    type V = ConfigEntryView;

    open spec fn view(&self) -> ConfigEntryView {
        ConfigEntryView { handle: self.handle, identifier: self.identifier, config: self.config@ }
    }
}

impl Clone for ConfigEntry {
    fn clone(&self) -> (r: Self)
        ensures
            r@ == self@,
    {
        ConfigEntry {
            handle: self.handle,
            identifier: self.identifier,
            config: self.config.clone(),
        }
    }
}

/// By what an entry is looked up.
#[derive(Clone, Copy, Debug)]
pub enum Key {
    Handle(u32),
    Identifier(GpuIdentifier),
}

/// Whether entry `e` is one that `key` asks for.
pub open spec fn answers(e: ConfigEntryView, key: Key) -> bool {
    match key {
        Key::Handle(h) => e.handle == h,
        Key::Identifier(id) => e.identifier == id,
    }
}

/// The index of the first entry that answers `key`, or the number of entries
/// where none does.
pub open spec fn first_index(entries: Seq<ConfigEntryView>, key: Key) -> int
    decreases entries.len(),
{
    if entries.len() == 0 {
        0
    } else if answers(entries[0], key) {
        0
    } else {
        1 + first_index(entries.drop_first(), key)
    }
}

/// Whether some entry carries handle `h`.
pub open spec fn taken(entries: Seq<ConfigEntryView>, h: u32) -> bool {
    first_index(entries, Key::Handle(h)) < entries.len()
}

/// Whether some entry carries identifier `id`.
pub open spec fn known(entries: Seq<ConfigEntryView>, id: GpuIdentifier) -> bool {
    first_index(entries, Key::Identifier(id)) < entries.len()
}

/// No handle occurs twice and every entry's settings are valid.
pub open spec fn store_wf(entries: Seq<ConfigEntryView>) -> bool {
    &&& forall|i: int, j: int| 0 <= i < j < entries.len() ==> entries[i].handle != entries[j].handle
    &&& forall|i: int| 0 <= i < entries.len() ==> (#[trigger] entries[i]).config.wf()
}

/// The entries after `e` was stored: `e` takes the place of the entry with
/// its handle, or comes last where no entry has it.
pub open spec fn with_entry(entries: Seq<ConfigEntryView>, e: ConfigEntryView) -> Seq<
    ConfigEntryView,
> {
    let k = first_index(entries, Key::Handle(e.handle));
    if k < entries.len() {
        entries.update(k, e)
    } else {
        entries.push(e)
    }
}

/// `h` is free and every smaller handle is taken.
pub open spec fn lowest_free(entries: Seq<ConfigEntryView>, h: u32) -> bool {
    !taken(entries, h) && forall|g: u32| g < h ==> taken(entries, g)
}

/// The handle that a new device gets when `candidate` is proposed for it:
/// `candidate` itself where no entry has it, otherwise the lowest handle that
/// is free, and none where every handle is taken.
pub open spec fn free_handle(entries: Seq<ConfigEntryView>, candidate: u32) -> Option<u32> {
    if !taken(entries, candidate) {
        Some(candidate)
    } else if forall|h: u32| taken(entries, h) {
        None
    } else {
        Some(choose|h: u32| lowest_free(entries, h))
    }
}

/// `first_index` is the one index that has no answering entry before it and
/// an answering entry at it, if it is an index at all.
pub proof fn lemma_first_index_is(entries: Seq<ConfigEntryView>, key: Key, k: int)
    requires
        0 <= k <= entries.len(),
        forall|i: int| 0 <= i < k ==> !answers(entries[i], key),
        k < entries.len() ==> answers(entries[k], key),
    ensures
        first_index(entries, key) == k,
    decreases entries.len(),
{
    if entries.len() == 0 {
    } else if answers(entries[0], key) {
    } else {
        let rest = entries.drop_first();
        assert forall|i: int| 0 <= i < k - 1 implies !answers(rest[i], key) by {
            assert(rest[i] == entries[i + 1]);
        }
        if k < entries.len() {
            assert(rest[k - 1] == entries[k]);
        }
        lemma_first_index_is(rest, key, k - 1);
    }
}

/// What `first_index` returns: see `lemma_first_index_is`.
pub proof fn lemma_first_index(entries: Seq<ConfigEntryView>, key: Key)
    ensures
        0 <= first_index(entries, key) <= entries.len(),
        forall|i: int| 0 <= i < first_index(entries, key) ==> !answers(entries[i], key),
        first_index(entries, key) < entries.len() ==> answers(
            entries[first_index(entries, key)],
            key,
        ),
    decreases entries.len(),
{
    if entries.len() == 0 {
    } else if answers(entries[0], key) {
    } else {
        let rest = entries.drop_first();
        lemma_first_index(rest, key);
        let k = first_index(entries, key);
        assert forall|i: int| 0 <= i < k implies !answers(entries[i], key) by {
            if i > 0 {
                assert(rest[i - 1] == entries[i]);
            }
        }
        if k < entries.len() {
            assert(rest[k - 1] == entries[k]);
        }
    }
}

/// Storing an entry with valid settings keeps the store valid.
pub proof fn lemma_with_entry_wf(entries: Seq<ConfigEntryView>, e: ConfigEntryView)
    requires
        store_wf(entries),
        e.config.wf(),
    ensures
        store_wf(with_entry(entries, e)),
{
    let key = Key::Handle(e.handle);
    let k = first_index(entries, key);
    lemma_first_index(entries, key);
    let r = with_entry(entries, e);
    if k < entries.len() {
        assert forall|i: int, j: int| 0 <= i < j < r.len() implies r[i].handle
            != r[j].handle by {
            assert(r[i].handle == entries[i].handle);
            assert(r[j].handle == entries[j].handle);
        }
        assert forall|i: int| 0 <= i < r.len() implies (#[trigger] r[i]).config.wf() by {
            if i != k {
                assert(r[i] == entries[i]);
            }
        }
    } else {
        assert forall|i: int, j: int| 0 <= i < j < r.len() implies r[i].handle
            != r[j].handle by {
            assert(r[i] == entries[i]);
            if j < entries.len() {
                assert(r[j] == entries[j]);
            } else {
                assert(!answers(entries[i], key));
            }
        }
        assert forall|i: int| 0 <= i < r.len() implies (#[trigger] r[i]).config.wf() by {
            if i < entries.len() {
                assert(r[i] == entries[i]);
            }
        }
    }
}

/// After an entry was stored, looking its handle up finds it.
pub proof fn lemma_with_entry_is_found(entries: Seq<ConfigEntryView>, e: ConfigEntryView)
    ensures
        taken(with_entry(entries, e), e.handle),
        with_entry(entries, e)[first_index(with_entry(entries, e), Key::Handle(e.handle))] == e,
{
    let key = Key::Handle(e.handle);
    let k = first_index(entries, key);
    lemma_first_index(entries, key);
    let after = with_entry(entries, e);
    assert forall|i: int| 0 <= i < k implies !answers(#[trigger] after[i], key) by {
        assert(after[i] == entries[i]);
    }
    assert(after[k] == e);
    lemma_first_index_is(after, key, k);
}

/// In a valid store an entry is the first, and so the only one, with its
/// handle.
pub proof fn lemma_index_of_handle(entries: Seq<ConfigEntryView>, k: int)
    requires
        store_wf(entries),
        0 <= k < entries.len(),
    ensures
        first_index(entries, Key::Handle(entries[k].handle)) == k,
{
    let key = Key::Handle(entries[k].handle);
    assert forall|i: int| 0 <= i < k implies !answers(#[trigger] entries[i], key) by {
        assert(entries[i].handle != entries[k].handle);
    }
    lemma_first_index_is(entries, key, k);
}

/// Storing an entry leaves the entries of other handles where and what they
/// were.
pub proof fn lemma_with_entry_keeps_others(
    entries: Seq<ConfigEntryView>,
    e: ConfigEntryView,
    other: u32,
)
    requires
        other != e.handle,
    ensures
        taken(with_entry(entries, e), other) == taken(entries, other),
        taken(entries, other) ==> with_entry(entries, e)[first_index(
            with_entry(entries, e),
            Key::Handle(other),
        )] == entries[first_index(entries, Key::Handle(other))],
{
    let key = Key::Handle(other);
    let after = with_entry(entries, e);
    let k = first_index(entries, Key::Handle(e.handle));
    let j = first_index(entries, key);
    lemma_first_index(entries, Key::Handle(e.handle));
    lemma_first_index(entries, key);
    assert forall|i: int| 0 <= i < j implies !answers(#[trigger] after[i], key) by {
        if i != k {
            assert(after[i] == entries[i]);
        }
    }
    if j < entries.len() {
        assert(j != k);
        assert(after[j] == entries[j]);
        lemma_first_index_is(after, key, j);
    } else {
        lemma_first_index_is(after, key, after.len() as int);
    }
}

/// A handle is taken exactly when some entry has it.
pub proof fn lemma_taken_means_present(entries: Seq<ConfigEntryView>, h: u32)
    ensures
        taken(entries, h) <==> exists|i: int|
            0 <= i < entries.len() && (#[trigger] entries[i]).handle == h,
{
    let key = Key::Handle(h);
    lemma_first_index(entries, key);
    let k = first_index(entries, key);
    if taken(entries, h) {
        assert(0 <= k < entries.len() && entries[k].handle == h);
    }
    if exists|i: int| 0 <= i < entries.len() && (#[trigger] entries[i]).handle == h {
        let i = choose|i: int| 0 <= i < entries.len() && (#[trigger] entries[i]).handle == h;
        if k > i {
            assert(!answers(entries[i], key));
        }
    }
}

/// A valid store with no more than `m` entries leaves one of the handles
/// from 0 to `m` free.
pub proof fn lemma_a_handle_is_free(entries: Seq<ConfigEntryView>, m: nat)
    requires
        store_wf(entries),
        entries.len() <= m <= u32::MAX,
    ensures
        exists|h: u32| h <= m && !taken(entries, h),
    decreases m,
{
    let top = m as u32;
    if taken(entries, top) {
        let k = first_index(entries, Key::Handle(top));
        lemma_first_index(entries, Key::Handle(top));
        let rest = entries.remove(k);
        assert forall|i: int, j: int| 0 <= i < j < rest.len() implies rest[i].handle
            != rest[j].handle by {
            let a = if i < k {
                i
            } else {
                i + 1
            };
            let b = if j < k {
                j
            } else {
                j + 1
            };
            assert(rest[i] == entries[a] && rest[j] == entries[b]);
        }
        assert forall|i: int| 0 <= i < rest.len() implies (#[trigger] rest[i]).config.wf() by {
            let a = if i < k {
                i
            } else {
                i + 1
            };
            assert(rest[i] == entries[a]);
        }
        lemma_a_handle_is_free(rest, (m - 1) as nat);
        let h = choose|h: u32| h <= m - 1 && !taken(rest, h);
        lemma_taken_means_present(entries, h);
        lemma_taken_means_present(rest, h);
        if taken(entries, h) {
            let i = choose|i: int| 0 <= i < entries.len() && (#[trigger] entries[i]).handle == h;
            assert(i != k);
            let a = if i < k {
                i
            } else {
                i - 1
            };
            assert(rest[a] == entries[i]);
            assert(rest[a].handle == h);
        }
        assert(h <= m && !taken(entries, h));
    } else {
        assert(top <= m && !taken(entries, top));
    }
}

/// The entries of a vector as plain values.
pub open spec fn entry_views(v: Seq<ConfigEntry>) -> Seq<ConfigEntryView> {
    v.map_values(|e: ConfigEntry| e@)
}

/// The store: entries by handle, and the options that hold for the service
/// as a whole.
#[derive(Debug, PartialEq, Eq)]
pub struct Config {
    entries: Vec<ConfigEntry>,
    allow_online_update: Option<bool>,
    config_path: String,
}

/// The store as plain values.
pub struct ConfigView {
    pub entries: Seq<ConfigEntryView>,
    pub allow_online_update: Option<bool>,
    pub config_path: Seq<char>,
}

impl ConfigView {
    /// The store is valid when its entries are.
    pub open spec fn wf(self) -> bool {
        store_wf(self.entries)
    }

    /// A store without entries.
    pub open spec fn empty(config_path: Seq<char>) -> ConfigView {
        ConfigView { entries: Seq::empty(), allow_online_update: None, config_path }
    }

    /// The store with other entries.
    pub open spec fn with_entries(self, entries: Seq<ConfigEntryView>) -> ConfigView {
        ConfigView { entries, ..self }
    }
}

impl View for Config {
    type V = ConfigView;

    closed spec fn view(&self) -> ConfigView {
        ConfigView {
            entries: entry_views(self.entries@),
            allow_online_update: self.allow_online_update,
            config_path: self.config_path@,
        }
    }
}

impl Clone for Config {
    fn clone(&self) -> (r: Self)
        ensures
            r@ == self@,
    {
        let mut entries: Vec<ConfigEntry> = Vec::new();
        let mut i: usize = 0;
        while i < self.entries.len()
            invariant
                i <= self.entries.len(),
                entry_views(entries@) == entry_views(self.entries@.subrange(0, i as int)),
            decreases self.entries.len() - i,
        {
            let e = self.entries[i].clone();
            proof {
                let before = self.entries@.subrange(0, i as int);
                let upto = self.entries@.subrange(0, i as int + 1);
                assert(entry_views(upto) =~= entry_views(before).push(e@));
                assert(entry_views(entries@.push(e)) =~= entry_views(entries@).push(e@));
            }
            entries.push(e);
            i += 1;
        }
        proof {
            assert(self.entries@.subrange(0, i as int) == self.entries@);
        }
        Config {
            entries,
            allow_online_update: self.allow_online_update,
            config_path: self.config_path.clone(),
        }
    }
}

/// Whether `e` is an entry that `key` asks for.
fn hit(e: &ConfigEntry, key: &Key) -> (r: bool)
    ensures
        r == answers(e@, *key),
{
    match key {
        Key::Handle(h) => e.handle == *h,
        Key::Identifier(id) => e.identifier == *id,
    }
}

impl Config {
    /// The invariant of the type.
    pub open spec fn wf(&self) -> bool {
        self@.wf()
    }

    /// An empty store that lives at `config_path`.
    pub fn new(config_path: String) -> (r: Config)
        ensures
            r@ == ConfigView::empty(config_path@),
            r.wf(),
    {
        let r = Config { entries: Vec::new(), allow_online_update: None, config_path };
        assert(r@.entries =~= Seq::empty());
        r
    }

    /// The number of entries.
    pub fn len(&self) -> (n: usize)
        ensures
            n == self@.entries.len(),
    {
        self.entries.len()
    }

    /// The entries, in the order of the store.
    pub fn entries(&self) -> (r: &Vec<ConfigEntry>)
        ensures
            entry_views(r@) == self@.entries,
    {
        &self.entries
    }

    /// The entry at index `k`.
    pub fn entry_at(&self, k: usize) -> (r: &ConfigEntry)
        requires
            k < self@.entries.len(),
        ensures
            r@ == self@.entries[k as int],
    {
        &self.entries[k]
    }

    /// Where the store is kept.
    pub fn config_path(&self) -> (r: &String)
        ensures
            r@ == self@.config_path,
    {
        &self.config_path
    }

    /// Whether names may be looked up online; `None` where nobody has said.
    pub fn allow_online_update(&self) -> (r: Option<bool>)
        ensures
            r == self@.allow_online_update,
    {
        self.allow_online_update
    }

    /// Says whether names may be looked up online.
    pub fn set_allow_online_update(&mut self, allow: Option<bool>)
        ensures
            final(self)@ == (ConfigView { allow_online_update: allow, ..old(self)@ }),
    {
        self.allow_online_update = allow;
    }

    /// Whether the name database is to be fetched: only where this was
    /// allowed in so many words.
    pub fn wants_online_update(&self) -> (r: bool)
        ensures
            r == (self@.allow_online_update == Some(true)),
    {
        match self.allow_online_update {
            Some(allow) => allow,
            None => false,
        }
    }

    /// The index of the first entry that answers `key`, or `len()`.
    pub fn position(&self, key: &Key) -> (k: usize)
        ensures
            k == first_index(self@.entries, *key),
            k <= self@.entries.len(),
    {
        let mut k: usize = 0;
        while k < self.entries.len() && !hit(&self.entries[k], key)
            invariant
                k <= self.entries.len(),
                forall|i: int| 0 <= i < k ==> !answers(self@.entries[i], *key),
            decreases self.entries.len() - k,
        {
            k += 1;
        }
        proof {
            lemma_first_index_is(self@.entries, *key, k as int);
        }
        k
    }

    /// Whether an entry has `handle`.
    pub fn contains(&self, handle: u32) -> (r: bool)
        ensures
            r == taken(self@.entries, handle),
    {
        self.position(&Key::Handle(handle)) < self.entries.len()
    }

    /// The entry that has `handle`.
    pub fn get(&self, handle: u32) -> (r: Option<&ConfigEntry>)
        ensures
            r is Some <==> taken(self@.entries, handle),
            r is Some ==> r.unwrap()@ == self@.entries[first_index(
                self@.entries,
                Key::Handle(handle),
            )],
    {
        let k = self.position(&Key::Handle(handle));
        if k < self.entries.len() {
            Some(&self.entries[k])
        } else {
            None
        }
    }

    /// The handle under which the device `identifier` is stored: that of the
    /// first entry that carries the identifier.
    pub fn handle_of(&self, identifier: &GpuIdentifier) -> (r: Option<u32>)
        ensures
            r is Some <==> known(self@.entries, *identifier),
            r is Some ==> r.unwrap() == self@.entries[first_index(
                self@.entries,
                Key::Identifier(*identifier),
            )].handle,
    {
        let k = self.position(&Key::Identifier(*identifier));
        if k < self.entries.len() {
            Some(self.entries[k].handle)
        } else {
            None
        }
    }

    /// Stores an entry: in the place of the entry that has `handle`, or
    /// behind the others where none has it.
    pub fn insert(&mut self, handle: u32, identifier: GpuIdentifier, config: GpuConfig)
        requires
            old(self).wf(),
            config.wf(),
        ensures
            final(self)@ == old(self)@.with_entries(
                with_entry(
                    old(self)@.entries,
                    ConfigEntryView { handle, identifier, config: config@ },
                ),
            ),
            final(self).wf(),
    {
        let k = self.position(&Key::Handle(handle));
        let entry = ConfigEntry { handle, identifier, config };
        proof {
            lemma_with_entry_wf(self@.entries, entry@);
        }
        let ghost before = self.entries@;
        if k < self.entries.len() {
            self.entries.set(k, entry);
            assert(entry_views(self.entries@) =~= entry_views(before).update(k as int, entry@));
        } else {
            self.entries.push(entry);
            assert(entry_views(self.entries@) =~= entry_views(before).push(entry@));
        }
    }

    /// The handle for a new device when `candidate` is proposed.
    pub fn assign_handle(&self, candidate: u32) -> (r: Option<u32>)
        ensures
            r == free_handle(self@.entries, candidate),
    {
        if !self.contains(candidate) {
            return Some(candidate);
        }
        let mut h: u32 = 0;
        while h < u32::MAX && self.contains(h)
            invariant
                forall|g: u32| g < h ==> taken(self@.entries, g),
            decreases u32::MAX - h,
        {
            h += 1;
        }
        if self.contains(h) {
            assert forall|g: u32| taken(self@.entries, g) by {
                if g < h {
                } else {
                    assert(g == h);
                }
            }
            None
        } else {
            proof {
                assert(lowest_free(self@.entries, h));
                let c = choose|c: u32| lowest_free(self@.entries, c);
                assert(lowest_free(self@.entries, c));
                assert(c == h) by {
                    if c < h {
                        assert(taken(self@.entries, c));
                    } else if h < c {
                        assert(taken(self@.entries, h));
                    }
                }
            }
            Some(h)
        }
    }
}

} // verus!
