//! The service itself: the registered controllers, the store, and the
//! protocol by which requests are answered.
//!
//! The service takes one request at a time. A request that needs nothing
//! written is answered at once. One that needs the hardware changed is
//! answered in two moves: `handle_connection` hands out the directives and
//! keeps the controller's next state aside, and `complete` takes in whether
//! the directives were performed and only then lets the state and the store
//! follow. A request that replaces the store asks for the devices to be
//! found again, and `reload` takes them in.

use crate::config::{
    first_index, lemma_with_entry_is_found, lemma_with_entry_keeps_others, taken, with_entry,
    Config, ConfigEntryView, ConfigView, Key, MaxPowerState, PowerProfile,
};
use crate::fan_curve::CurvePoint;
use crate::gpu_controller::{
    copy_name, lemma_commit_of_nothing, out_of_bounds, stats_of, FanControlInfo, FanControlInfoView,
    GpuController, GpuControllerError, GpuControllerView, GpuInfo, GpuStats, Plan,
};
use crate::hw_mon::{
    directive_views, DeviceDirectives, DeviceDirectivesView, FanMode, HwDirective, HwReadings,
};
use crate::reconcile::{
    agrees, find_slot, follows, reconcile, reconcile_with, registered, slot_index, slot_views,
    slots_agree_with_store, slots_follow_store, slots_wf, ControllerSlot, DiscoveredGpu,
    Reconciliation, SlotView,
};
use std::collections::HashMap;
use vstd::prelude::*;

verus! {

/// Where the service takes connections.
pub const SOCK_PATH: &'static str = "/tmp/amdgpu-configurator.sock";

/// A request.
#[derive(Debug, PartialEq, Eq)]
pub enum Action {
    CheckAlive,
    GetConfig,
    SetConfig(Config),
    GetGpus,
    GetInfo(u32),
    GetStats(u32),
    StartFanControl(u32),
    StopFanControl(u32),
    GetFanControl(u32),
    SetFanCurve(u32, Vec<CurvePoint>),
    SetPowerCap(u32, i64),
    GetPowerCap(u32),
    SetPowerProfile(u32, PowerProfile),
    SetGPUMaxPowerState(u32, i64, Option<i64>),
    SetVRAMMaxClock(u32, i64),
    CommitGPUPowerStates(u32),
    ResetGPUPowerStates(u32),
    Shutdown,
}

impl Action {
    /// The handle of the device that the request is about, if it is about
    /// one.
    pub open spec fn addressed(self) -> Option<u32> {
        match self {
            Action::GetInfo(h) => Some(h),
            Action::GetStats(h) => Some(h),
            Action::StartFanControl(h) => Some(h),
            Action::StopFanControl(h) => Some(h),
            Action::GetFanControl(h) => Some(h),
            Action::SetFanCurve(h, _) => Some(h),
            Action::SetPowerCap(h, _) => Some(h),
            Action::GetPowerCap(h) => Some(h),
            Action::SetPowerProfile(h, _) => Some(h),
            Action::SetGPUMaxPowerState(h, _, _) => Some(h),
            Action::SetVRAMMaxClock(h, _) => Some(h),
            Action::CommitGPUPowerStates(h) => Some(h),
            Action::ResetGPUPowerStates(h) => Some(h),
            _ => None,
        }
    }

    /// A request is valid when the store it carries, if any, is.
    pub open spec fn wf(self) -> bool {
        match self {
            Action::SetConfig(config) => config.wf(),
            _ => true,
        }
    }

    /// The handle of the device that the request is about.
    pub fn target(&self) -> (r: Option<u32>)
        ensures
            r == self.addressed(),
    {
        match self {
            Action::GetInfo(h) => Some(*h),
            Action::GetStats(h) => Some(*h),
            Action::StartFanControl(h) => Some(*h),
            Action::StopFanControl(h) => Some(*h),
            Action::GetFanControl(h) => Some(*h),
            Action::SetFanCurve(h, _) => Some(*h),
            Action::SetPowerCap(h, _) => Some(*h),
            Action::GetPowerCap(h) => Some(*h),
            Action::SetPowerProfile(h, _) => Some(*h),
            Action::SetGPUMaxPowerState(h, _, _) => Some(*h),
            Action::SetVRAMMaxClock(h, _) => Some(*h),
            Action::CommitGPUPowerStates(h) => Some(*h),
            Action::ResetGPUPowerStates(h) => Some(*h),
            _ => None,
        }
    }
}

/// What a request is answered with when it succeeds.
#[derive(Debug, PartialEq, Eq)]
pub enum DaemonResponse {
    OK,
    GpuInfo(GpuInfo),
    GpuStats(GpuStats),
    Gpus(HashMap<u32, Option<String>>),
    PowerCap((i64, i64)),
    FanControlInfo(FanControlInfo),
    Config(Config),
}

/// A response as plain values.
pub enum DaemonResponseView {
    OK,
    GpuInfo(GpuInfo),
    GpuStats(GpuStats),
    Gpus(Map<u32, Option<String>>),
    PowerCap((i64, i64)),
    FanControlInfo(FanControlInfoView),
    Config(ConfigView),
}

impl View for DaemonResponse {
    type V = DaemonResponseView;

    open spec fn view(&self) -> DaemonResponseView {
        match self {
            DaemonResponse::OK => DaemonResponseView::OK,
            DaemonResponse::GpuInfo(info) => DaemonResponseView::GpuInfo(*info),
            DaemonResponse::GpuStats(stats) => DaemonResponseView::GpuStats(*stats),
            DaemonResponse::Gpus(gpus) => DaemonResponseView::Gpus(gpus@),
            DaemonResponse::PowerCap(cap) => DaemonResponseView::PowerCap(*cap),
            DaemonResponse::FanControlInfo(info) => DaemonResponseView::FanControlInfo(info@),
            DaemonResponse::Config(config) => DaemonResponseView::Config(config@),
        }
    }
}

/// What a request is answered with when it fails.
#[derive(Clone, Copy, Debug, PartialEq, Eq, Structural)]
pub enum DaemonError {
    ConnectionFailed,
    /// No controller is registered under the handle.
    InvalidID,
    /// An attribute could not be read or written.
    HWMonError,
    /// A value was refused before anything was written.
    ControllerError,
}

/// The error that a request ends with when its controller refuses.
pub open spec fn error_of(e: GpuControllerError) -> DaemonError {
    match e {
        GpuControllerError::HwMon => DaemonError::HWMonError,
        _ => DaemonError::ControllerError,
    }
}

/// The answer to a request, and whether the store must be written to disk
/// before the answer goes out.
#[derive(Debug, PartialEq, Eq)]
pub struct Reply {
    pub response: Result<DaemonResponse, DaemonError>,
    pub persist: bool,
}

/// An answer as plain values.
pub struct ReplyView {
    pub response: Result<DaemonResponseView, DaemonError>,
    pub persist: bool,
}

impl View for Reply {
    type V = ReplyView;

    open spec fn view(&self) -> ReplyView {
        ReplyView {
            response: match self.response {
                Ok(response) => Ok(response@),
                Err(e) => Err(e),
            },
            persist: self.persist,
        }
    }
}

/// What is to be done next about a connection.
#[derive(Debug, PartialEq, Eq)]
pub enum Step {
    /// Stop taking connections.
    StopListening,
    /// Close the connection without an answer.
    CloseSilently,
    /// Send the answer.
    Reply(Reply),
    /// Perform the directives, first to last, stopping at the first that
    /// fails, and report to `complete`.
    Hardware(DeviceDirectives),
    /// Perform the directives as far as they succeed, find the devices
    /// again, and hand them to `reload`.
    Reload(Vec<DeviceDirectives>),
    /// Perform the directives as far as they succeed, remove the endpoint,
    /// and exit.
    Shutdown(Vec<DeviceDirectives>),
}

/// A step as plain values.
pub enum StepView {
    StopListening,
    CloseSilently,
    Reply(ReplyView),
    Hardware(DeviceDirectivesView),
    Reload(Seq<DeviceDirectivesView>),
    Shutdown(Seq<DeviceDirectivesView>),
}

impl View for Step {
    type V = StepView;

    open spec fn view(&self) -> StepView {
        match self {
            Step::StopListening => StepView::StopListening,
            Step::CloseSilently => StepView::CloseSilently,
            Step::Reply(reply) => StepView::Reply(reply@),
            Step::Hardware(directives) => StepView::Hardware(directives@),
            Step::Reload(directives) => StepView::Reload(directive_views(directives@)),
            Step::Shutdown(directives) => StepView::Shutdown(directive_views(directives@)),
        }
    }
}

/// What came of waiting for a connection.
#[derive(Debug, PartialEq, Eq)]
pub enum Incoming {
    /// No connection could be accepted.
    Failed,
    /// What the peer sent is no request.
    Undecodable,
    Request(Action),
}

impl Incoming {
    /// Valid when the request is.
    pub open spec fn wf(self) -> bool {
        match self {
            Incoming::Request(action) => action.wf(),
            _ => true,
        }
    }
}

/// Where the service stands.
#[derive(Debug, PartialEq, Eq)]
pub enum Phase {
    /// Ready for a request.
    Listening,
    /// Directives are out for the device under `handle`; `controller` is its
    /// controller as it will be once they are performed.
    Handling { handle: u32, controller: GpuController },
    /// The store was replaced and the devices are being found again.
    Reloading,
    /// Shut down: nothing is answered any more.
    Shutdown,
}

/// A phase as plain values.
pub enum PhaseView {
    Listening,
    Handling { handle: u32, controller: GpuControllerView },
    Reloading,
    Shutdown,
}

impl View for Phase {
    type V = PhaseView;

    open spec fn view(&self) -> PhaseView {
        match self {
            Phase::Listening => PhaseView::Listening,
            Phase::Handling { handle, controller } => PhaseView::Handling {
                handle: *handle,
                controller: controller@,
            },
            Phase::Reloading => PhaseView::Reloading,
            Phase::Shutdown => PhaseView::Shutdown,
        }
    }
}

/// The service as plain values.
pub struct DaemonView {
    pub slots: Seq<SlotView>,
    pub config: ConfigView,
    pub phase: PhaseView,
}

/// What a move of the service comes to: its next state and the step to take.
pub struct Outcome {
    pub next: DaemonView,
    pub step: StepView,
}

/// The registered devices: for each handle the name of the device's model,
/// where it has one.
pub open spec fn listing(slots: Seq<SlotView>) -> Map<u32, Option<String>> {
    Map::new(
        |h: u32| registered(slots, h),
        |h: u32| slots[slot_index(slots, h)].controller.info.vendor_data.gpu_model,
    )
}

/// The directives that take a device's fan from a running loop, for a
/// controller that is about to be dropped.
pub open spec fn teardown_of(s: SlotView) -> DeviceDirectivesView {
    DeviceDirectivesView {
        card: s.controller.card,
        directives: if s.controller.fan_control_running {
            seq![HwDirective::SetFanMode(FanMode::Automatic)]
        } else {
            Seq::empty()
        },
    }
}

/// For each registered device its teardown.
pub open spec fn teardown(slots: Seq<SlotView>) -> Seq<DeviceDirectivesView> {
    slots.map_values(|s: SlotView| teardown_of(s))
}

/// A registered controller after its shutdown.
pub open spec fn shut_down(s: SlotView) -> SlotView {
    SlotView { handle: s.handle, controller: s.controller.shutdown().next }
}

/// The directives of a registered controller's shutdown.
pub open spec fn shutdown_of(s: SlotView) -> DeviceDirectivesView {
    DeviceDirectivesView {
        card: s.controller.card,
        directives: s.controller.shutdown().directives,
    }
}

impl StepView {
    /// The directives that a step hands out for the device that a request
    /// is about.
    pub open spec fn issued(self) -> Seq<HwDirective> {
        match self {
            StepView::Hardware(queue) => queue.directives,
            _ => Seq::empty(),
        }
    }
}

impl DaemonView {
    /// The service is valid when store and controllers are, when every
    /// registered controller has its entry in the store, when that entry
    /// holds the controller's settings as long as the service is not shut
    /// down, and when a controller that is kept aside is valid and is for a
    /// registered device.
    pub open spec fn wf(self) -> bool {
        &&& self.config.wf()
        &&& slots_wf(self.slots)
        &&& slots_follow_store(self.slots, self.config.entries)
        &&& !(self.phase is Shutdown) ==> slots_agree_with_store(self.slots, self.config.entries)
        &&& match self.phase {
            PhaseView::Handling { handle, controller } => controller.wf() && registered(
                self.slots,
                handle,
            ) && controller.card == self.controller(handle).card && controller.info
                == self.controller(handle).info,
            _ => true,
        }
    }

    /// The controller registered under `handle`.
    pub open spec fn controller(self, handle: u32) -> GpuControllerView {
        self.slots[slot_index(self.slots, handle)].controller
    }

    /// The service with `controller` in the place of the controller
    /// registered under `handle`, and with the controller's identifier and
    /// settings written to the store under that handle.
    pub open spec fn install(self, handle: u32, controller: GpuControllerView) -> DaemonView {
        DaemonView {
            slots: self.slots.update(
                slot_index(self.slots, handle),
                SlotView { handle, controller },
            ),
            config: self.config.with_entries(
                with_entry(
                    self.config.entries,
                    ConfigEntryView {
                        handle,
                        identifier: controller.identifier(),
                        config: controller.config,
                    },
                ),
            ),
            phase: self.phase,
        }
    }

    /// The service with `controller` in the place of the controller
    /// registered under `handle`; the store stays as it is.
    pub open spec fn with_controller(self, handle: u32, controller: GpuControllerView) -> DaemonView {
        DaemonView {
            slots: self.slots.update(
                slot_index(self.slots, handle),
                SlotView { handle, controller },
            ),
            ..self
        }
    }

    /// One turn of the fan loop of the device under `handle`: the turn of
    /// its controller, with the directive addressed to the device. Where no
    /// controller is registered under the handle nothing happens.
    pub open spec fn fan_control_tick(self, handle: u32, temperature: Option<i64>) -> (
        DaemonView,
        Option<DeviceDirectivesView>,
    ) {
        if registered(self.slots, handle) {
            let turn = self.controller(handle).fan_control_tick(temperature);
            (
                self.with_controller(handle, turn.0),
                match turn.1 {
                    Some(d) => Some(
                        DeviceDirectivesView { card: turn.0.card, directives: seq![d] },
                    ),
                    None => None,
                },
            )
        } else {
            (self, None)
        }
    }

    /// The service after the fan loop of the device under `handle` could
    /// not write a duty cycle.
    pub open spec fn fan_write_failed(self, handle: u32) -> DaemonView {
        if registered(self.slots, handle) {
            self.with_controller(handle, self.controller(handle).fan_fault())
        } else {
            self
        }
    }

    /// An answer that changes nothing.
    pub open spec fn reply(self, response: Result<DaemonResponseView, DaemonError>) -> Outcome {
        Outcome { next: self, step: StepView::Reply(ReplyView { response, persist: false }) }
    }

    /// Success after a change: the controller is installed, and the store
    /// goes to disk before the answer goes out.
    pub open spec fn settle(self, handle: u32, controller: GpuControllerView) -> Outcome {
        Outcome {
            next: self.install(handle, controller),
            step: StepView::Reply(ReplyView { response: Ok(DaemonResponseView::OK), persist: true }),
        }
    }

    /// A change that may need the hardware: with no directive it is settled
    /// at once, otherwise the directives go out and the controller's next
    /// state is kept aside.
    pub open spec fn write(self, handle: u32, plan: Plan) -> Outcome {
        if plan.directives.len() == 0 {
            self.settle(handle, plan.next)
        } else {
            Outcome {
                next: DaemonView {
                    phase: PhaseView::Handling { handle, controller: plan.next },
                    ..self
                },
                step: StepView::Hardware(
                    DeviceDirectivesView { card: plan.next.card, directives: plan.directives },
                ),
            }
        }
    }

    /// What a request about the device under `handle` comes to, `c` being
    /// the device's controller and `r` the reading of its attributes.
    pub open spec fn handle_device(
        self,
        action: Action,
        handle: u32,
        c: GpuControllerView,
        r: HwReadings,
    ) -> Outcome {
        match action {
            Action::GetInfo(_) => self.reply(Ok(DaemonResponseView::GpuInfo(c.info))),
            Action::GetStats(_) => match stats_of(r) {
                Some(stats) => self.reply(Ok(DaemonResponseView::GpuStats(stats))),
                None => self.reply(Err(DaemonError::HWMonError)),
            },
            Action::GetFanControl(_) => match c.get_fan_control(r) {
                Ok(info) => self.reply(Ok(DaemonResponseView::FanControlInfo(info))),
                Err(e) => self.reply(Err(error_of(e))),
            },
            Action::GetPowerCap(_) => match c.get_power_cap(r) {
                Ok(cap) => self.reply(Ok(DaemonResponseView::PowerCap(cap))),
                Err(e) => self.reply(Err(error_of(e))),
            },
            Action::StartFanControl(_) => self.write(handle, c.start_fan_control()),
            Action::StopFanControl(_) => self.write(handle, c.stop_fan_control()),
            Action::SetFanCurve(_, points) => match c.set_fan_curve(points@) {
                Ok(next) => self.settle(handle, next),
                Err(e) => self.reply(Err(error_of(e))),
            },
            Action::SetPowerCap(_, cap) => match c.set_power_cap(cap, r) {
                Ok(plan) => self.write(handle, plan),
                Err(e) => self.reply(Err(error_of(e))),
            },
            Action::SetPowerProfile(_, profile) => match c.set_power_profile(profile, r) {
                Ok(plan) => self.write(handle, plan),
                Err(e) => self.reply(Err(error_of(e))),
            },
            Action::SetGPUMaxPowerState(_, clockspeed, voltage) => match c.set_gpu_max_power_state(
                MaxPowerState { clockspeed, voltage },
            ) {
                Ok(next) => self.settle(handle, next),
                Err(e) => self.reply(Err(error_of(e))),
            },
            Action::SetVRAMMaxClock(_, clockspeed) => match c.set_vram_max_clockspeed(clockspeed) {
                Ok(next) => self.settle(handle, next),
                Err(e) => self.reply(Err(error_of(e))),
            },
            Action::CommitGPUPowerStates(_) => self.write(handle, c.commit_gpu_power_states()),
            Action::ResetGPUPowerStates(_) => self.write(handle, c.reset_gpu_power_states()),
            _ => self.reply(Err(DaemonError::InvalidID)),
        }
    }

    /// What a request comes to, `r` being the reading of the attributes of
    /// the device that the request is about.
    ///
    /// A service that is not listening closes the connection. A request
    /// about a handle under which no controller is registered is refused
    /// with `InvalidID` and changes nothing.
    pub open spec fn handle_connection(self, action: Action, r: HwReadings) -> Outcome {
        if !(self.phase is Listening) {
            Outcome { next: self, step: StepView::CloseSilently }
        } else {
            match action {
                Action::CheckAlive => self.reply(Ok(DaemonResponseView::OK)),
                Action::GetConfig => self.reply(Ok(DaemonResponseView::Config(self.config))),
                Action::GetGpus => self.reply(Ok(DaemonResponseView::Gpus(listing(self.slots)))),
                Action::SetConfig(config) => Outcome {
                    next: DaemonView {
                        slots: Seq::empty(),
                        config: config@,
                        phase: PhaseView::Reloading,
                    },
                    step: StepView::Reload(teardown(self.slots)),
                },
                Action::Shutdown => Outcome {
                    next: DaemonView {
                        slots: self.slots.map_values(|s: SlotView| shut_down(s)),
                        phase: PhaseView::Shutdown,
                        ..self
                    },
                    step: StepView::Shutdown(self.slots.map_values(|s: SlotView| shutdown_of(s))),
                },
                _ => {
                    let handle = action.addressed().unwrap();
                    if registered(self.slots, handle) {
                        self.handle_device(action, handle, self.controller(handle), r)
                    } else {
                        self.reply(Err(DaemonError::InvalidID))
                    }
                },
            }
        }
    }

    /// What the news of the directives comes to. Performed, the controller
    /// kept aside is installed and the request succeeds; not performed, the
    /// controller is forgotten and the request fails with `HWMonError`.
    /// Where no directives were out there is nothing to answer.
    pub open spec fn complete(self, written: bool) -> (DaemonView, Option<ReplyView>) {
        match self.phase {
            PhaseView::Handling { handle, controller } => {
                let listening = DaemonView { phase: PhaseView::Listening, ..self };
                if written {
                    (
                        listening.install(handle, controller),
                        Some(ReplyView { response: Ok(DaemonResponseView::OK), persist: true }),
                    )
                } else {
                    (
                        listening,
                        Some(
                            ReplyView { response: Err(DaemonError::HWMonError), persist: false },
                        ),
                    )
                }
            },
            _ => (self, None),
        }
    }

    /// What waiting for a connection comes to.
    pub open spec fn listen(self, incoming: Incoming, r: HwReadings) -> Outcome {
        match incoming {
            Incoming::Failed => Outcome { next: self, step: StepView::StopListening },
            Incoming::Undecodable => Outcome { next: self, step: StepView::CloseSilently },
            Incoming::Request(action) => self.handle_connection(action, r),
        }
    }

    /// The service that results from taking `devices` in on top of the
    /// store `config`, for some proposals for the new handles.
    pub open spec fn reconciles(
        self,
        config: ConfigView,
        devices: Seq<DiscoveredGpu>,
        startup: Seq<DeviceDirectivesView>,
    ) -> bool {
        exists|draws: Seq<u32>|
            {
                let done = #[trigger] reconcile(config.entries, devices, draws);
                &&& self.config == config.with_entries(done.entries)
                &&& self.slots == done.slots
                &&& startup == done.startup
            }
    }
}

/// The service.
#[derive(Debug, PartialEq, Eq)]
pub struct Daemon {
    gpu_controllers: Vec<ControllerSlot>,
    config: Config,
    phase: Phase,
}

impl View for Daemon {
    type V = DaemonView;

    closed spec fn view(&self) -> DaemonView {
        DaemonView {
            slots: slot_views(self.gpu_controllers@),
            config: self.config@,
            phase: self.phase@,
        }
    }
}

/// A service as it starts: whether the store is to be written to disk, and
/// the directives that put stored settings in force.
#[derive(Debug, PartialEq, Eq)]
pub struct Startup {
    pub daemon: Daemon,
    pub persist: bool,
    pub hardware: Vec<DeviceDirectives>,
}

/// The answer after the devices were found again, and the directives that
/// put stored settings in force.
#[derive(Debug, PartialEq, Eq)]
pub struct Reloaded {
    pub reply: Reply,
    pub hardware: Vec<DeviceDirectives>,
}

/// `rand::random::<u32>()`: a number drawn from the thread's generator.
/// Nothing is known of it but its type.
#[verifier::external_body]
fn random_handle() -> (r: u32) {
    rand::random::<u32>()
}

/// An answer that changes nothing.
fn answer(response: Result<DaemonResponse, DaemonError>) -> (step: Step)
    ensures
        step@ == StepView::Reply(
            ReplyView {
                response: match response {
                    Ok(response) => Ok(response@),
                    Err(e) => Err(e),
                },
                persist: false,
            },
        ),
{
    Step::Reply(Reply { response, persist: false })
}

/// The error that a request ends with when its controller refuses.
fn refusal(e: GpuControllerError) -> (step: Step)
    ensures
        step@ == StepView::Reply(ReplyView { response: Err(error_of(e)), persist: false }),
{
    match e {
        GpuControllerError::HwMon => answer(Err(DaemonError::HWMonError)),
        _ => answer(Err(DaemonError::ControllerError)),
    }
}

impl Daemon {
    /// The invariant of the type.
    pub open spec fn wf(&self) -> bool {
        self@.wf()
    }

    /// The store.
    pub fn config(&self) -> (r: &Config)
        ensures
            r@ == self@.config,
    {
        &self.config
    }

    /// The registered controllers.
    pub fn controllers(&self) -> (r: &Vec<ControllerSlot>)
        ensures
            slot_views(r@) == self@.slots,
    {
        &self.gpu_controllers
    }

    /// Whether the service is ready for a request.
    pub fn is_listening(&self) -> (r: bool)
        ensures
            r == (self@.phase is Listening),
    {
        match &self.phase {
            Phase::Listening => true,
            _ => false,
        }
    }

    /// The number of the directory of the device under `handle`.
    pub fn card_of(&self, handle: u32) -> (r: Option<u32>)
        requires
            self.wf(),
        ensures
            r is Some <==> registered(self@.slots, handle),
            r is Some ==> r.unwrap() == self@.controller(handle).card,
    {
        match find_slot(&self.gpu_controllers, handle) {
            Some(k) => {
                assert(slot_views(self.gpu_controllers@)[k as int]
                    == self.gpu_controllers@[k as int]@);
                Some(self.gpu_controllers[k].controller.card())
            },
            None => None,
        }
    }

    /// Draws a proposal for each device and takes the devices in.
    pub fn load_gpu_controllers(config: &mut Config, devices: &Vec<DiscoveredGpu>) -> (r:
        Reconciliation)
        requires
            old(config).wf(),
        ensures
            (DaemonView {
                slots: slot_views(r.controllers@),
                config: final(config)@,
                phase: PhaseView::Listening,
            }).reconciles(old(config)@, devices@, directive_views(r.startup@)),
            final(config).wf(),
            slots_wf(slot_views(r.controllers@)),
            slots_agree_with_store(slot_views(r.controllers@), final(config)@.entries),
    {
        let mut draws: Vec<u32> = Vec::new();
        let mut i: usize = 0;
        while i < devices.len()
            invariant
                i <= devices.len(),
            decreases devices.len() - i,
        {
            draws.push(random_handle());
            i += 1;
        }
        let r = reconcile_with(config, devices, &draws);
        proof {
            let done = reconcile(old(config)@.entries, devices@, draws@);
            assert(config@ == old(config)@.with_entries(done.entries));
        }
        r
    }

    /// Starts the service. An unprivileged service starts from an empty
    /// store and leaves the disk alone; any other starts from the store that
    /// was read, or from an empty one where none could be read, and writes
    /// the store back once the devices are taken in.
    pub fn new(
        unprivileged: bool,
        stored: Option<Config>,
        config_path: String,
        devices: &Vec<DiscoveredGpu>,
    ) -> (r: Startup)
        requires
            stored is Some ==> stored.unwrap().wf(),
        ensures
            r.daemon@.reconciles(
                if !unprivileged && stored is Some {
                    stored.unwrap()@
                } else {
                    ConfigView::empty(config_path@)
                },
                devices@,
                directive_views(r.hardware@),
            ),
            r.daemon@.phase is Listening,
            r.persist == !unprivileged,
            r.daemon.wf(),
    {
        let mut config = if unprivileged {
            Config::new(config_path)
        } else {
            match stored {
                Some(config) => config,
                None => Config::new(config_path),
            }
        };
        let found = Daemon::load_gpu_controllers(&mut config, devices);
        Startup {
            daemon: Daemon { gpu_controllers: found.controllers, config, phase: Phase::Listening },
            persist: !unprivileged,
            hardware: found.startup,
        }
    }

    /// Puts `controller` in the place of the controller at index `k`, and
    /// writes its identifier and settings to the store.
    fn install(&mut self, k: usize, handle: u32, controller: GpuController)
        requires
            old(self).wf(),
            registered(old(self)@.slots, handle),
            k == slot_index(old(self)@.slots, handle),
            controller.wf(),
            controller@.card == old(self)@.controller(handle).card,
            controller@.info == old(self)@.controller(handle).info,
            !(old(self)@.phase is Handling),
        ensures
            final(self)@ == old(self)@.install(handle, controller@),
            final(self).wf(),
    {
        let ghost slots = slot_views(self.gpu_controllers@);
        let ghost entries = self@.config.entries;
        self.config.insert(handle, controller.get_identifier(), controller.get_config());
        let slot = ControllerSlot { handle, controller };
        self.gpu_controllers.set(k, slot);
        proof {
            let after = slot_views(self.gpu_controllers@);
            assert(after =~= slots.update(k as int, slot@));
            let e = ConfigEntryView {
                handle,
                identifier: slot@.controller.identifier(),
                config: slot@.controller.config,
            };
            lemma_with_entry_is_found(entries, e);
            assert forall|i: int| 0 <= i < after.len() implies follows(
                #[trigger] after[i],
                self@.config.entries,
            ) && (agrees(slots[i], entries) ==> agrees(after[i], self@.config.entries)) by {
                if i != k {
                    assert(after[i] == slots[i]);
                    assert(follows(slots[i], entries));
                    if i < k {
                        assert(slots[i].handle != slots[k as int].handle);
                    } else {
                        assert(slots[k as int].handle != slots[i].handle);
                    }
                    lemma_with_entry_keeps_others(entries, e, slots[i].handle);
                }
            }
            if !(self@.phase is Shutdown) {
                assert forall|i: int| 0 <= i < after.len() implies agrees(
                    #[trigger] after[i],
                    self@.config.entries,
                ) by {
                    assert(agrees(slots[i], entries) || i == k);
                }
            }
            assert forall|i: int, j: int| 0 <= i < j < after.len() implies after[i].handle
                != after[j].handle && after[i].controller.card != after[j].controller.card by {
                assert(after[i].handle == slots[i].handle);
                assert(after[j].handle == slots[j].handle);
                assert(after[i].controller.card == slots[i].controller.card);
                assert(after[j].controller.card == slots[j].controller.card);
            }
            assert forall|i: int| 0 <= i < after.len() implies (#[trigger] after[i]).controller.wf() by {
                if i != k {
                    assert(after[i] == slots[i]);
                }
            }
        }
    }

    /// Success after a change.
    fn settle(&mut self, k: usize, handle: u32, controller: GpuController) -> (step: Step)
        requires
            old(self).wf(),
            registered(old(self)@.slots, handle),
            k == slot_index(old(self)@.slots, handle),
            controller.wf(),
            controller@.card == old(self)@.controller(handle).card,
            controller@.info == old(self)@.controller(handle).info,
            !(old(self)@.phase is Handling),
        ensures
            old(self)@.settle(handle, controller@) == (Outcome { next: final(self)@, step: step@ }),
            final(self).wf(),
    {
        self.install(k, handle, controller);
        Step::Reply(Reply { response: Ok(DaemonResponse::OK), persist: true })
    }

    /// A change that may need the hardware.
    fn write(
        &mut self,
        k: usize,
        handle: u32,
        controller: GpuController,
        directives: Vec<HwDirective>,
    ) -> (step: Step)
        requires
            old(self).wf(),
            registered(old(self)@.slots, handle),
            k == slot_index(old(self)@.slots, handle),
            controller.wf(),
            controller@.card == old(self)@.controller(handle).card,
            controller@.info == old(self)@.controller(handle).info,
            old(self)@.phase is Listening,
        ensures
            old(self)@.write(handle, Plan { next: controller@, directives: directives@ }) == (
            Outcome { next: final(self)@, step: step@ }),
            final(self).wf(),
    {
        if directives.len() == 0 {
            self.settle(k, handle, controller)
        } else {
            let card = controller.card();
            self.phase = Phase::Handling { handle, controller };
            Step::Hardware(DeviceDirectives { card, directives })
        }
    }

    /// Handles a request about the device whose controller is at index `k`.
    fn handle_device(&mut self, action: Action, k: usize, handle: u32, readings: &HwReadings) -> (step:
        Step)
        requires
            old(self).wf(),
            registered(old(self)@.slots, handle),
            k == slot_index(old(self)@.slots, handle),
            k < old(self)@.slots.len(),
            old(self)@.phase is Listening,
            action.addressed() == Some(handle),
        ensures
            old(self)@.handle_device(action, handle, old(self)@.controller(handle), *readings) == (
            Outcome { next: final(self)@, step: step@ }),
            final(self).wf(),
    {
        assert(slot_views(self.gpu_controllers@)[k as int] == self.gpu_controllers@[k as int]@);
        let mut next = self.gpu_controllers[k].controller.clone();
        match action {
            Action::GetInfo(_) => answer(Ok(DaemonResponse::GpuInfo(next.get_info().clone()))),
            Action::GetStats(_) => match next.get_stats(readings) {
                Ok(stats) => answer(Ok(DaemonResponse::GpuStats(stats))),
                Err(_) => answer(Err(DaemonError::HWMonError)),
            },
            Action::GetFanControl(_) => match next.get_fan_control(readings) {
                Ok(info) => answer(Ok(DaemonResponse::FanControlInfo(info))),
                Err(e) => refusal(e),
            },
            Action::GetPowerCap(_) => match next.get_power_cap(readings) {
                Ok(cap) => answer(Ok(DaemonResponse::PowerCap(cap))),
                Err(e) => refusal(e),
            },
            Action::StartFanControl(_) => {
                let directives = next.start_fan_control();
                self.write(k, handle, next, directives)
            },
            Action::StopFanControl(_) => {
                let directives = next.stop_fan_control();
                self.write(k, handle, next, directives)
            },
            Action::SetFanCurve(_, points) => match next.set_fan_curve(&points) {
                Ok(()) => self.settle(k, handle, next),
                Err(e) => refusal(e),
            },
            Action::SetPowerCap(_, cap) => match next.set_power_cap(cap, readings) {
                Ok(directives) => self.write(k, handle, next, directives),
                Err(e) => refusal(e),
            },
            Action::SetPowerProfile(_, profile) => match next.set_power_profile(profile, readings) {
                Ok(directives) => self.write(k, handle, next, directives),
                Err(e) => refusal(e),
            },
            Action::SetGPUMaxPowerState(_, clockspeed, voltage) => match next.set_gpu_max_power_state(
                clockspeed,
                voltage,
            ) {
                Ok(()) => self.settle(k, handle, next),
                Err(e) => refusal(e),
            },
            Action::SetVRAMMaxClock(_, clockspeed) => match next.set_vram_max_clockspeed(
                clockspeed,
            ) {
                Ok(()) => self.settle(k, handle, next),
                Err(e) => refusal(e),
            },
            Action::CommitGPUPowerStates(_) => {
                let directives = next.commit_gpu_power_states();
                self.write(k, handle, next, directives)
            },
            Action::ResetGPUPowerStates(_) => {
                let directives = next.reset_gpu_power_states();
                self.write(k, handle, next, directives)
            },
            _ => answer(Err(DaemonError::InvalidID)),
        }
    }

    /// The registered devices with their names.
    fn list_gpus(&self) -> (gpus: HashMap<u32, Option<String>>)
        requires
            self.wf(),
        ensures
            gpus@ == listing(self@.slots),
    {
        let ghost slots = self@.slots;
        let mut gpus: HashMap<u32, Option<String>> = HashMap::new();
        let mut i: usize = 0;
        while i < self.gpu_controllers.len()
            invariant
                i <= self.gpu_controllers.len(),
                slots == slot_views(self.gpu_controllers@),
                slots_wf(slots),
                forall|h: u32|
                    gpus@.contains_key(h) <==> exists|j: int|
                        0 <= j < i && (#[trigger] slots[j]).handle == h,
                forall|j: int|
                    0 <= j < i ==> gpus@[(#[trigger] slots[j]).handle]
                        == slots[j].controller.info.vendor_data.gpu_model,
            decreases self.gpu_controllers.len() - i,
        {
            let slot = &self.gpu_controllers[i];
            let name = copy_name(&slot.controller.get_info().vendor_data.gpu_model);
            let ghost before = gpus@;
            assert(slots[i as int] == slot@);
            gpus.insert(slot.handle, name);
            proof {
                assert(gpus@ == before.insert(slot.handle, name));
                assert forall|h: u32| gpus@.contains_key(h) <==> exists|j: int|
                    0 <= j < i + 1 && (#[trigger] slots[j]).handle == h by {
                    if gpus@.contains_key(h) {
                        if h == slot.handle {
                            assert(slots[i as int].handle == h);
                        } else {
                            assert(before.contains_key(h));
                            let j = choose|j: int| 0 <= j < i && (#[trigger] slots[j]).handle == h;
                            assert(0 <= j < i + 1 && slots[j].handle == h);
                        }
                    }
                    if exists|j: int| 0 <= j < i + 1 && (#[trigger] slots[j]).handle == h {
                        let j = choose|j: int| 0 <= j < i + 1 && (#[trigger] slots[j]).handle == h;
                        if j < i {
                            assert(before.contains_key(h));
                        }
                    }
                }
                assert forall|j: int| 0 <= j < i + 1 implies gpus@[(#[trigger] slots[j]).handle]
                    == slots[j].controller.info.vendor_data.gpu_model by {
                    if j < i {
                        assert(slots[j].handle != slots[i as int].handle);
                    }
                }
            }
            i += 1;
        }
        proof {
            let expected = listing(slots);
            assert forall|h: u32| gpus@.contains_key(h) <==> expected.contains_key(h) by {
                if gpus@.contains_key(h) {
                    let j = choose|j: int| 0 <= j < i && (#[trigger] slots[j]).handle == h;
                    assert(0 <= j < slots.len() && slots[j].handle == h);
                }
                if registered(slots, h) {
                    let j = slot_index(slots, h);
                    assert(0 <= j < i && slots[j].handle == h);
                }
            }
            assert forall|h: u32| gpus@.contains_key(h) implies gpus@[h] == expected[h] by {
                let j = slot_index(slots, h);
                assert(slots[j].handle == h);
            }
            assert(gpus@ =~= expected);
        }
        gpus
    }

    /// For each registered device its teardown.
    fn teardown(&self) -> (r: Vec<DeviceDirectives>)
        ensures
            directive_views(r@) == teardown(self@.slots),
    {
        let mut r: Vec<DeviceDirectives> = Vec::new();
        let mut i: usize = 0;
        while i < self.gpu_controllers.len()
            invariant
                i <= self.gpu_controllers.len(),
                directive_views(r@) == teardown(self@.slots).subrange(0, i as int),
            decreases self.gpu_controllers.len() - i,
        {
            let controller = &self.gpu_controllers[i].controller;
            let mut directives: Vec<HwDirective> = Vec::new();
            if controller.is_fan_control_running() {
                directives.push(HwDirective::SetFanMode(FanMode::Automatic));
            }
            let queue = DeviceDirectives { card: controller.card(), directives };
            proof {
                assert(slot_views(self.gpu_controllers@)[i as int]
                    == self.gpu_controllers@[i as int]@);
                assert(queue@.directives =~= teardown_of(self@.slots[i as int]).directives);
                assert(queue@ == teardown_of(self@.slots[i as int]));
                assert(directive_views(r@.push(queue)) =~= directive_views(r@).push(queue@));
                assert(teardown(self@.slots).subrange(0, i as int + 1) =~= teardown(
                    self@.slots,
                ).subrange(0, i as int).push(teardown_of(self@.slots[i as int])));
            }
            r.push(queue);
            i += 1;
        }
        proof {
            assert(teardown(self@.slots).subrange(0, i as int) == teardown(self@.slots));
        }
        r
    }

    /// Shuts every controller down.
    fn shutdown(&mut self) -> (r: Vec<DeviceDirectives>)
        requires
            old(self).wf(),
            old(self)@.phase is Listening,
        ensures
            final(self)@ == (DaemonView {
                slots: old(self)@.slots.map_values(|s: SlotView| shut_down(s)),
                phase: PhaseView::Shutdown,
                ..old(self)@
            }),
            directive_views(r@) == old(self)@.slots.map_values(|s: SlotView| shutdown_of(s)),
            final(self).wf(),
    {
        let ghost before = slot_views(self.gpu_controllers@);
        let ghost slots_after = before.map_values(|s: SlotView| shut_down(s));
        let ghost queues = before.map_values(|s: SlotView| shutdown_of(s));
        let mut controllers: Vec<ControllerSlot> = Vec::new();
        let mut r: Vec<DeviceDirectives> = Vec::new();
        let mut i: usize = 0;
        while i < self.gpu_controllers.len()
            invariant
                i <= self.gpu_controllers.len(),
                before == slot_views(self.gpu_controllers@),
                slots_wf(before),
                slots_after == before.map_values(|s: SlotView| shut_down(s)),
                queues == before.map_values(|s: SlotView| shutdown_of(s)),
                slot_views(controllers@) == slots_after.subrange(0, i as int),
                directive_views(r@) == queues.subrange(0, i as int),
            decreases self.gpu_controllers.len() - i,
        {
            let slot = &self.gpu_controllers[i];
            let mut controller = slot.controller.clone();
            assert(before[i as int] == slot@);
            assert(controller.wf());
            let directives = controller.shutdown();
            let next = ControllerSlot { handle: slot.handle, controller };
            let queue = DeviceDirectives { card: slot.controller.card(), directives };
            proof {
                assert(next@ == shut_down(before[i as int]));
                assert(queue@ == shutdown_of(before[i as int]));
                assert(slot_views(controllers@.push(next)) =~= slot_views(controllers@).push(
                    next@,
                ));
                assert(slots_after.subrange(0, i as int + 1) =~= slots_after.subrange(
                    0,
                    i as int,
                ).push(shut_down(before[i as int])));
                assert(directive_views(r@.push(queue)) =~= directive_views(r@).push(queue@));
                assert(queues.subrange(0, i as int + 1) =~= queues.subrange(0, i as int).push(
                    shutdown_of(before[i as int]),
                ));
            }
            controllers.push(next);
            r.push(queue);
            i += 1;
        }
        proof {
            assert(slots_after.subrange(0, i as int) == slots_after);
            assert(queues.subrange(0, i as int) == queues);
            assert forall|a: int, b: int| 0 <= a < b < slots_after.len() implies slots_after[a].handle
                != slots_after[b].handle && slots_after[a].controller.card
                != slots_after[b].controller.card by {
                assert(before[a].handle != before[b].handle);
                assert(before[a].controller.card != before[b].controller.card);
            }
            assert forall|a: int| 0 <= a < slots_after.len() implies (
            #[trigger] slots_after[a]).controller.wf() by {
                assert(before[a].controller.wf());
            }
            assert forall|a: int| 0 <= a < slots_after.len() implies follows(
                #[trigger] slots_after[a],
                self@.config.entries,
            ) by {
                assert(follows(before[a], self@.config.entries));
            }
        }
        self.gpu_controllers = controllers;
        self.phase = Phase::Shutdown;
        r
    }

    /// Handles a request. `readings` is the reading of the attributes of the
    /// device that the request is about; for other requests it is not looked
    /// at.
    pub fn handle_connection(&mut self, action: Action, readings: &HwReadings) -> (step: Step)
        requires
            old(self).wf(),
            action.wf(),
        ensures
            old(self)@.handle_connection(action, *readings) == (Outcome {
                next: final(self)@,
                step: step@,
            }),
            final(self).wf(),
    {
        if !self.is_listening() {
            return Step::CloseSilently;
        }
        match action {
            Action::CheckAlive => answer(Ok(DaemonResponse::OK)),
            Action::GetConfig => answer(Ok(DaemonResponse::Config(self.config.clone()))),
            Action::GetGpus => answer(Ok(DaemonResponse::Gpus(self.list_gpus()))),
            Action::SetConfig(config) => {
                let directives = self.teardown();
                self.config = config;
                self.gpu_controllers = Vec::new();
                self.phase = Phase::Reloading;
                assert(slot_views(self.gpu_controllers@) =~= Seq::<SlotView>::empty());
                Step::Reload(directives)
            },
            Action::Shutdown => {
                let directives = self.shutdown();
                Step::Shutdown(directives)
            },
            _ => {
                let handle = match action.target() {
                    Some(handle) => handle,
                    None => {
                        return answer(Err(DaemonError::InvalidID));
                    },
                };
                match find_slot(&self.gpu_controllers, handle) {
                    Some(k) => self.handle_device(action, k, handle, readings),
                    None => answer(Err(DaemonError::InvalidID)),
                }
            },
        }
    }

    /// Takes in whether the directives that `handle_connection` handed out
    /// were performed, and gives the answer to the request.
    pub fn complete(&mut self, written: bool) -> (reply: Option<Reply>)
        requires
            old(self).wf(),
        ensures
            old(self)@.complete(written) == (
                final(self)@,
                match reply {
                    Some(reply) => Some(reply@),
                    None => None,
                },
            ),
            final(self).wf(),
    {
        let (handle, controller) = match &self.phase {
            Phase::Handling { handle, controller } => (*handle, controller.clone()),
            _ => {
                return None;
            },
        };
        self.phase = Phase::Listening;
        if written {
            match find_slot(&self.gpu_controllers, handle) {
                Some(k) => {
                    self.install(k, handle, controller);
                },
                None => {},
            }
            Some(Reply { response: Ok(DaemonResponse::OK), persist: true })
        } else {
            Some(Reply { response: Err(DaemonError::HWMonError), persist: false })
        }
    }

    /// Puts `controller` in the place of the controller at index `k`.
    fn replace_controller(&mut self, k: usize, handle: u32, controller: GpuController)
        requires
            old(self).wf(),
            registered(old(self)@.slots, handle),
            k == slot_index(old(self)@.slots, handle),
            controller.wf(),
            controller@.card == old(self)@.controller(handle).card,
            controller@.info == old(self)@.controller(handle).info,
            controller@.config == old(self)@.controller(handle).config,
        ensures
            final(self)@ == old(self)@.with_controller(handle, controller@),
            final(self).wf(),
    {
        let ghost slots = slot_views(self.gpu_controllers@);
        let slot = ControllerSlot { handle, controller };
        self.gpu_controllers.set(k, slot);
        proof {
            let after = slot_views(self.gpu_controllers@);
            assert(after =~= slots.update(k as int, slot@));
            assert forall|i: int| 0 <= i < after.len() implies follows(
                #[trigger] after[i],
                self@.config.entries,
            ) && (agrees(slots[i], self@.config.entries) ==> agrees(
                after[i],
                self@.config.entries,
            )) by {
                assert(follows(slots[i], self@.config.entries));
                if i != k {
                    assert(after[i] == slots[i]);
                }
            }
            if !(self@.phase is Shutdown) {
                assert forall|i: int| 0 <= i < after.len() implies agrees(
                    #[trigger] after[i],
                    self@.config.entries,
                ) by {
                    assert(agrees(slots[i], self@.config.entries));
                }
            }
            assert forall|i: int, j: int| 0 <= i < j < after.len() implies after[i].handle
                != after[j].handle && after[i].controller.card != after[j].controller.card by {
                assert(after[i].handle == slots[i].handle);
                assert(after[j].handle == slots[j].handle);
                assert(after[i].controller.card == slots[i].controller.card);
                assert(after[j].controller.card == slots[j].controller.card);
            }
            assert forall|i: int| 0 <= i < after.len() implies (#[trigger] after[i]).controller.wf() by {
                if i != k {
                    assert(after[i] == slots[i]);
                }
            }
            lemma_same_slot(slots, after, handle);
            match self@.phase {
                PhaseView::Handling { handle: pending, controller: _ } => {
                    lemma_same_slot(slots, after, pending);
                },
                _ => {},
            }
        }
    }

    /// Takes one turn of the fan loop of the device under `handle`, given
    /// the device's temperature if it could be read. The directive, if any,
    /// is to be performed, and `fan_write_failed` called where that fails.
    pub fn fan_control_tick(&mut self, handle: u32, temperature: Option<i64>) -> (r: Option<
        DeviceDirectives,
    >)
        requires
            old(self).wf(),
        ensures
            old(self)@.fan_control_tick(handle, temperature) == (
                final(self)@,
                match r {
                    Some(queue) => Some(queue@),
                    None => None,
                },
            ),
            final(self).wf(),
    {
        match find_slot(&self.gpu_controllers, handle) {
            Some(k) => {
                assert(slot_views(self.gpu_controllers@)[k as int]
                    == self.gpu_controllers@[k as int]@);
                let mut controller = self.gpu_controllers[k].controller.clone();
                let directive = controller.fan_control_tick(temperature);
                let card = controller.card();
                self.replace_controller(k, handle, controller);
                match directive {
                    Some(d) => {
                        let mut directives: Vec<HwDirective> = Vec::new();
                        directives.push(d);
                        assert(directives@ =~= seq![d]);
                        Some(DeviceDirectives { card, directives })
                    },
                    None => None,
                }
            },
            None => None,
        }
    }

    /// Counts a duty cycle that the fan loop of the device under `handle`
    /// could not write.
    pub fn fan_write_failed(&mut self, handle: u32)
        requires
            old(self).wf(),
        ensures
            final(self)@ == old(self)@.fan_write_failed(handle),
            final(self).wf(),
    {
        match find_slot(&self.gpu_controllers, handle) {
            Some(k) => {
                assert(slot_views(self.gpu_controllers@)[k as int]
                    == self.gpu_controllers@[k as int]@);
                let mut controller = self.gpu_controllers[k].controller.clone();
                controller.fan_write_failed();
                self.replace_controller(k, handle, controller);
            },
            None => {},
        }
    }

    /// Takes one turn of the accept loop.
    pub fn listen(&mut self, incoming: Incoming, readings: &HwReadings) -> (step: Step)
        requires
            old(self).wf(),
            incoming.wf(),
        ensures
            old(self)@.listen(incoming, *readings) == (Outcome { next: final(self)@, step: step@ }),
            final(self).wf(),
    {
        match incoming {
            Incoming::Failed => Step::StopListening,
            Incoming::Undecodable => Step::CloseSilently,
            Incoming::Request(action) => self.handle_connection(action, readings),
        }
    }

    /// Takes the devices in after the store was replaced, and gives the
    /// answer to the request that replaced it. Where no store was replaced
    /// there is nothing to take in and nothing to answer.
    pub fn reload(&mut self, devices: &Vec<DiscoveredGpu>) -> (r: Option<Reloaded>)
        requires
            old(self).wf(),
        ensures
            match r {
                Some(reloaded) => {
                    &&& old(self)@.phase is Reloading
                    &&& final(self)@.reconciles(
                        old(self)@.config,
                        devices@,
                        directive_views(reloaded.hardware@),
                    )
                    &&& final(self)@.phase is Listening
                    &&& reloaded.reply@ == (ReplyView {
                        response: Ok(DaemonResponseView::OK),
                        persist: true,
                    })
                },
                None => !(old(self)@.phase is Reloading) && final(self)@ == old(self)@,
            },
            final(self).wf(),
    {
        match &self.phase {
            Phase::Reloading => {},
            _ => {
                return None;
            },
        }
        let found = Daemon::load_gpu_controllers(&mut self.config, devices);
        self.gpu_controllers = found.controllers;
        self.phase = Phase::Listening;
        Some(
            Reloaded {
                reply: Reply { response: Ok(DaemonResponse::OK), persist: true },
                hardware: found.startup,
            },
        )
    }
}

/// Replacing a controller leaves every handle where it was.
proof fn lemma_same_slot(before: Seq<SlotView>, after: Seq<SlotView>, handle: u32)
    requires
        slots_wf(before),
        slots_wf(after),
        before.len() == after.len(),
        forall|i: int| 0 <= i < before.len() ==> before[i].handle == after[i].handle,
    ensures
        registered(after, handle) == registered(before, handle),
        registered(before, handle) ==> slot_index(after, handle) == slot_index(before, handle),
{
    if registered(before, handle) {
        let i = slot_index(before, handle);
        assert(after[i].handle == handle);
        let j = slot_index(after, handle);
        if i < j {
            assert(after[i].handle != after[j].handle);
        } else if j < i {
            assert(after[j].handle != after[i].handle);
        }
    }
    if registered(after, handle) {
        let j = slot_index(after, handle);
        assert(before[j].handle == handle);
    }
}

/// A handle never comes to stand for another device: installing a
/// controller in the place of one that is for the same device leaves every
/// handle of the store with the identifier it had.
pub proof fn lemma_handles_keep_their_devices(d: DaemonView, handle: u32, c: GpuControllerView)
    requires
        d.wf(),
        registered(d.slots, handle),
        c.info == d.controller(handle).info,
    ensures
        forall|h: u32|
            taken(d.config.entries, h) ==> taken(d.install(handle, c).config.entries, h)
                && d.install(handle, c).config.entries[first_index(
                d.install(handle, c).config.entries,
                Key::Handle(h),
            )].identifier == d.config.entries[first_index(
                d.config.entries,
                Key::Handle(h),
            )].identifier,
{
    let e = ConfigEntryView { handle, identifier: c.identifier(), config: c.config };
    let after = d.install(handle, c).config.entries;
    assert(follows(d.slots[slot_index(d.slots, handle)], d.config.entries));
    assert forall|h: u32| taken(d.config.entries, h) implies taken(after, h) && after[first_index(
        after,
        Key::Handle(h),
    )].identifier == d.config.entries[first_index(d.config.entries, Key::Handle(h))].identifier by {
        if h == handle {
            lemma_with_entry_is_found(d.config.entries, e);
        } else {
            lemma_with_entry_keeps_others(d.config.entries, e, h);
        }
    }
}

/// A request that succeeds after a change leaves the change in the store:
/// the answer asks for the store to go to disk first, the entry under the
/// device's handle carries the controller's identifier and settings, and
/// the controller registered under the handle is the new one.
pub proof fn lemma_success_is_stored(d: DaemonView, handle: u32, c: GpuControllerView)
    requires
        d.wf(),
        registered(d.slots, handle),
    ensures
        ({
            let outcome = d.settle(handle, c);
            let entries = outcome.next.config.entries;
            let k = first_index(entries, Key::Handle(handle));
            &&& outcome.step == StepView::Reply(
                ReplyView { response: Ok(DaemonResponseView::OK), persist: true },
            )
            &&& k < entries.len()
            &&& entries[k].identifier == c.identifier()
            &&& entries[k].config == c.config
            &&& registered(outcome.next.slots, handle)
            &&& outcome.next.controller(handle) == c
        }),
{
    let e = ConfigEntryView { handle, identifier: c.identifier(), config: c.config };
    lemma_with_entry_is_found(d.config.entries, e);
    let i = slot_index(d.slots, handle);
    let after = d.install(handle, c).slots;
    assert(after[i].handle == handle);
    let j = slot_index(after, handle);
    if j != i {
        assert(after[j] == d.slots[j]);
        if i < j {
            assert(d.slots[i].handle != d.slots[j].handle);
        } else {
            assert(d.slots[j].handle != d.slots[i].handle);
        }
    }
}

/// Directives that were handed out and performed settle the request: the
/// service ends where it would have ended had the change needed no
/// hardware, and the answer is the same.
pub proof fn lemma_performed_directives_settle(d: DaemonView, handle: u32, plan: Plan)
    requires
        d.phase is Listening,
        plan.directives.len() > 0,
    ensures
        d.write(handle, plan).step.issued() == plan.directives,
        d.write(handle, plan).next.complete(true) == (
            d.settle(handle, plan.next).next,
            Some(ReplyView { response: Ok(DaemonResponseView::OK), persist: true }),
        ),
        d.write(handle, plan).next.complete(false) == (
            d,
            Some(ReplyView { response: Err(DaemonError::HWMonError), persist: false }),
        ),
{
}

/// A request about a handle under which no controller is registered is
/// refused with `InvalidID`, whatever it asks for: nothing goes to the
/// hardware, the service and its store stay as they are, and nothing is
/// written to disk.
pub proof fn lemma_unknown_handle_is_refused(d: DaemonView, action: Action, r: HwReadings)
    requires
        d.phase is Listening,
        action.addressed() is Some,
        !registered(d.slots, action.addressed().unwrap()),
    ensures
        d.handle_connection(action, r) == (Outcome {
            next: d,
            step: StepView::Reply(
                ReplyView { response: Err(DaemonError::InvalidID), persist: false },
            ),
        }),
        d.handle_connection(action, r).step.issued() == Seq::<HwDirective>::empty(),
{
}

/// A power cap below the lowest or above the highest that the hardware
/// reports is refused with `ControllerError`: nothing goes to the hardware,
/// the service and the stored settings stay as they are, and nothing is
/// written to disk.
pub proof fn lemma_power_cap_out_of_bounds_is_refused(
    d: DaemonView,
    handle: u32,
    cap: i64,
    r: HwReadings,
)
    requires
        d.phase is Listening,
        registered(d.slots, handle),
        out_of_bounds(cap, r),
    ensures
        d.handle_connection(Action::SetPowerCap(handle, cap), r) == (Outcome {
            next: d,
            step: StepView::Reply(
                ReplyView { response: Err(DaemonError::ControllerError), persist: false },
            ),
        }),
        d.handle_connection(Action::SetPowerCap(handle, cap), r).step.issued() == Seq::<
            HwDirective,
        >::empty(),
{
}

/// A power cap above the highest that the hardware takes is refused, and the
/// question that follows it is answered with the cap that was in force and
/// with that highest.
pub proof fn lemma_refused_cap_is_still_reported(
    d: DaemonView,
    handle: u32,
    cap: i64,
    r: HwReadings,
)
    requires
        d.phase is Listening,
        registered(d.slots, handle),
        r.power_cap is Some,
        r.power_cap_max is Some,
        cap > r.power_cap_max.unwrap(),
    ensures
        ({
            let set = d.listen(Incoming::Request(Action::SetPowerCap(handle, cap)), r);
            let get = set.next.listen(Incoming::Request(Action::GetPowerCap(handle)), r);
            &&& set == (Outcome {
                next: d,
                step: StepView::Reply(
                    ReplyView { response: Err(DaemonError::ControllerError), persist: false },
                ),
            })
            &&& get == (Outcome {
                next: d,
                step: StepView::Reply(
                    ReplyView {
                        response: Ok(
                            DaemonResponseView::PowerCap(
                                (r.power_cap.unwrap(), r.power_cap_max.unwrap()),
                            ),
                        ),
                        persist: false,
                    },
                ),
            })
        }),
{
}

/// On shutdown every device is returned to its defaults, and the fan is
/// handed back to the firmware exactly where the store says that fan control
/// is enabled: for the device at index `i` the directives are the reset of
/// the clocks, the automatic power profile and, where the store's entry has
/// fan control enabled, the automatic fan mode, in this order. No fan loop
/// runs afterwards, no clock edit stays staged, the store is as it was, and
/// the service answers nothing any more.
pub proof fn lemma_shutdown_follows_store(d: DaemonView, r: HwReadings, i: int)
    requires
        d.wf(),
        d.phase is Listening,
        0 <= i < d.slots.len(),
    ensures
        ({
            let outcome = d.handle_connection(Action::Shutdown, r);
            let slot = d.slots[i];
            let entry = d.config.entries[first_index(d.config.entries, Key::Handle(slot.handle))];
            let after = outcome.next.slots[i].controller;
            &&& taken(d.config.entries, slot.handle)
            &&& outcome.step matches StepView::Shutdown(queues) && queues.len() == d.slots.len()
                && queues[i].card == slot.controller.card && queues[i].directives == seq![
                HwDirective::ResetClocks,
                HwDirective::SetPowerProfile(PowerProfile::Auto),
            ] + (if entry.config.fan_control_enabled {
                seq![HwDirective::SetFanMode(FanMode::Automatic)]
            } else {
                Seq::empty()
            })
            &&& outcome.next.slots.len() == d.slots.len()
            &&& outcome.next.slots[i].handle == slot.handle
            &&& entry.config.fan_control_enabled ==> !after.fan_control_running
            &&& !after.config.fan_control_enabled || !entry.config.fan_control_enabled
            &&& after.config.power_profile == PowerProfile::Auto
            &&& !after.config.has_staged_edits()
            &&& outcome.next.config == d.config
            &&& outcome.next.phase is Shutdown
        }),
{
    let slot = d.slots[i];
    assert(agrees(slot, d.config.entries));
    let plan = slot.controller.shutdown();
    let expected = seq![
        HwDirective::ResetClocks,
        HwDirective::SetPowerProfile(PowerProfile::Auto),
    ] + (if slot.controller.config.fan_control_enabled {
        seq![HwDirective::SetFanMode(FanMode::Automatic)]
    } else {
        Seq::empty()
    });
    assert(plan.directives =~= expected);
}

/// A commit with nothing staged succeeds at once: nothing goes to the
/// hardware and no setting changes.
pub proof fn lemma_commit_of_nothing_succeeds(d: DaemonView, handle: u32, r: HwReadings)
    requires
        d.phase is Listening,
        registered(d.slots, handle),
        !d.controller(handle).config.has_staged_edits(),
    ensures
        ({
            let outcome = d.handle_connection(Action::CommitGPUPowerStates(handle), r);
            &&& outcome.step == StepView::Reply(
                ReplyView { response: Ok(DaemonResponseView::OK), persist: true },
            )
            &&& outcome.step.issued() == Seq::<HwDirective>::empty()
            &&& outcome.next.slots == d.slots
            &&& outcome.next.phase == d.phase
        }),
{
    let c = d.controller(handle);
    lemma_commit_of_nothing(c, arbitrary());
    let i = slot_index(d.slots, handle);
    assert(d.slots[i] == SlotView { handle, controller: c });
    assert(d.slots.update(i, SlotView { handle, controller: c }) =~= d.slots);
}

/// Staging a clock edit goes no further than the settings: the request
/// succeeds at once and nothing goes to the hardware.
pub proof fn lemma_staging_writes_nothing(
    d: DaemonView,
    handle: u32,
    clockspeed: i64,
    voltage: Option<i64>,
    r: HwReadings,
)
    requires
        d.phase is Listening,
        registered(d.slots, handle),
    ensures
        d.handle_connection(
            Action::SetGPUMaxPowerState(handle, clockspeed, voltage),
            r,
        ).step.issued() == Seq::<HwDirective>::empty(),
        d.handle_connection(Action::SetVRAMMaxClock(handle, clockspeed), r).step.issued()
            == Seq::<HwDirective>::empty(),
{
}

} // verus!
