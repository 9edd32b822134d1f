//! Per-device trigger coordination.
//!
//! One trigger evaluation — fetch, sort, extract, smooth, detect, maybe
//! dispatch — runs per ingestion event. The coordinator is the decision
//! core of that path: a state machine per device, driven by events (an
//! ingestion arrived, the history fetch finished or failed, a dispatch
//! finished) and answering with the one action the surrounding runtime
//! should take next. Evaluations are serialized per device: while one is in
//! flight a new ingestion event for the same device is dropped. Alerts are
//! deduplicated per stability episode: the per-device flag is set when an
//! alert is dispatched and falls only once the signal is observed not
//! stable again. Devices are independent: an event for one device never
//! touches another device's state.

use vstd::prelude::*;

use crate::detector::Threshold;
use crate::detector::stable_signal;
use crate::detector::signal_is_stable;
use crate::smoothing::as_ints;
use crate::window::Reading;
use crate::window::sort_by_time;
use crate::window::extracted_series;
use crate::window::sort_readings;
use crate::window::extract_series;

verus! {

/// Configuration of the trigger pipeline, passed in at construction.
pub struct TriggerConfig {
    /// Name of the payload field carrying the monitored scalar.
    pub metric_key: Vec<u8>,
    /// Stability threshold for the normalized derivative.
    pub threshold: Threshold,
    /// Window size of the smoothing filter.
    pub smoothing_width: u8,
    /// Length of the trailing fetch window, in the same time unit as the
    /// reading timestamps (e.g. one hour of milliseconds).
    pub lookback: i64,
}

impl TriggerConfig {
    pub open spec fn wf(self) -> bool {
        &&& self.threshold.wf()
        &&& self.smoothing_width >= 1
        &&& self.lookback >= 0
    }
}

/// The per-device trigger state: whether an evaluation is in flight, and
/// whether an alert was already dispatched for the current stability
/// episode.
#[derive(Clone, Copy, PartialEq, Eq, Structural, Debug)]
pub struct DeviceState {
    pub busy: bool,
    pub episode_alerted: bool,
}

impl DeviceState {
    /// The state of a device never seen before: idle, nothing alerted.
    pub fn initial() -> (r: DeviceState)
        ensures
            r == (DeviceState { busy: false, episode_alerted: false }),
    {
        DeviceState { busy: false, episode_alerted: false }
    }
}

/// An event delivered to the coordinator for one device.
pub enum TriggerEvent {
    /// A new telemetry write for the device was accepted.
    Ingest,
    /// The history fetch for the running evaluation failed.
    FetchFailed,
    /// The history fetch returned this window of readings (any order).
    FetchOk(Vec<Reading>),
    /// The alert dispatch for the running evaluation finished, with or
    /// without success.
    DispatchDone(bool),
}

/// The one action the runtime should take after an event.
#[derive(Clone, Copy, PartialEq, Eq, Structural, Debug)]
pub enum TriggerAction {
    /// Start fetching the trailing window of readings for the device.
    BeginFetch,
    /// An evaluation is already in flight for the device: drop the event.
    DropEvent,
    /// The window is stable and not yet alerted: dispatch an alert.
    Dispatch,
    /// The evaluation ended because the history fetch failed.
    FinishFetchFailed,
    /// The evaluation ended: the window held no usable data point.
    FinishNoData,
    /// The evaluation ended: the signal is not stable.
    FinishNotStable,
    /// The evaluation ended: stable, but this episode was already alerted.
    FinishAlreadyAlerted,
    /// The evaluation ended after its dispatch, which succeeded or not.
    FinishDelivered(bool),
}

/// The numeric series a fetched window yields once normalized: sorted
/// oldest-first, metrics extracted, unusable readings skipped.
pub open spec fn window_values(rs: Seq<Reading>, key: Seq<u8>) -> Seq<int> {
    as_ints(extracted_series(sort_by_time(rs), key))
}

/// Whether a fetched window is judged stable under a configuration.
pub open spec fn window_stable(rs: Seq<Reading>, cfg: TriggerConfig) -> bool {
    stable_signal(
        window_values(rs, cfg.metric_key@),
        cfg.smoothing_width as int,
        cfg.threshold.num as int,
        cfg.threshold.den as int,
    )
}

/// The device state after an event.
pub open spec fn step_state(s: DeviceState, e: TriggerEvent, cfg: TriggerConfig) -> DeviceState {
    match e {
        TriggerEvent::Ingest => if s.busy {
            s
        } else {
            DeviceState { busy: true, episode_alerted: s.episode_alerted }
        },
        TriggerEvent::FetchFailed => DeviceState { busy: false, episode_alerted: s.episode_alerted },
        TriggerEvent::FetchOk(rs) => {
            if window_values(rs@, cfg.metric_key@).len() == 0 {
                DeviceState { busy: false, episode_alerted: s.episode_alerted }
            } else if window_stable(rs@, cfg) {
                if s.episode_alerted {
                    DeviceState { busy: false, episode_alerted: true }
                } else {
                    DeviceState { busy: true, episode_alerted: true }
                }
            } else {
                DeviceState { busy: false, episode_alerted: false }
            }
        },
        TriggerEvent::DispatchDone(_) => DeviceState { busy: false, episode_alerted: s.episode_alerted },
    }
}

/// The action the runtime is told to take after an event.
pub open spec fn step_action(s: DeviceState, e: TriggerEvent, cfg: TriggerConfig) -> TriggerAction {
    match e {
        TriggerEvent::Ingest => if s.busy {
            TriggerAction::DropEvent
        } else {
            TriggerAction::BeginFetch
        },
        TriggerEvent::FetchFailed => TriggerAction::FinishFetchFailed,
        TriggerEvent::FetchOk(rs) => {
            if window_values(rs@, cfg.metric_key@).len() == 0 {
                TriggerAction::FinishNoData
            } else if window_stable(rs@, cfg) {
                if s.episode_alerted {
                    TriggerAction::FinishAlreadyAlerted
                } else {
                    TriggerAction::Dispatch
                }
            } else {
                TriggerAction::FinishNotStable
            }
        },
        TriggerEvent::DispatchDone(ok) => TriggerAction::FinishDelivered(ok),
    }
}

/// Runs one step of the per-device state machine. Pure decision logic: the
/// fetched window is analyzed here (sort, extract, smooth, detect), the
/// returned action is for the runtime to carry out.
pub fn device_step(s: DeviceState, event: TriggerEvent, cfg: &TriggerConfig) -> (r: (
    DeviceState,
    TriggerAction,
))
    requires
        cfg.wf(),
    ensures
        r.0 == step_state(s, event, *cfg),
        r.1 == step_action(s, event, *cfg),
{
    match event {
        TriggerEvent::Ingest => {
            if s.busy {
                (s, TriggerAction::DropEvent)
            } else {
                (DeviceState { busy: true, episode_alerted: s.episode_alerted }, TriggerAction::BeginFetch)
            }
        },
        TriggerEvent::FetchFailed => {
            (
                DeviceState { busy: false, episode_alerted: s.episode_alerted },
                TriggerAction::FinishFetchFailed,
            )
        },
        TriggerEvent::FetchOk(rs) => {
            let ghost window = rs@;
            let sorted = sort_readings(rs);
            let values = extract_series(&sorted, &cfg.metric_key);
            proof {
                assert(as_ints(values@) == window_values(window, cfg.metric_key@));
            }
            if values.len() == 0 {
                (
                    DeviceState { busy: false, episode_alerted: s.episode_alerted },
                    TriggerAction::FinishNoData,
                )
            } else {
                let stable = signal_is_stable(&values, cfg.smoothing_width, &cfg.threshold);
                if stable {
                    if s.episode_alerted {
                        (
                            DeviceState { busy: false, episode_alerted: true },
                            TriggerAction::FinishAlreadyAlerted,
                        )
                    } else {
                        (
                            DeviceState { busy: true, episode_alerted: true },
                            TriggerAction::Dispatch,
                        )
                    }
                } else {
                    (
                        DeviceState { busy: false, episode_alerted: false },
                        TriggerAction::FinishNotStable,
                    )
                }
            }
        },
        TriggerEvent::DispatchDone(ok) => {
            (
                DeviceState { busy: false, episode_alerted: s.episode_alerted },
                TriggerAction::FinishDelivered(ok),
            )
        },
    }
}

/// Evaluations are serialized per device: while one is in flight, a new
/// ingestion event for the same device is dropped and changes nothing, so
/// at most one evaluation executes at a time per device however many
/// ingestion events arrive concurrently.
pub proof fn lemma_busy_device_serializes(s: DeviceState, cfg: TriggerConfig)
    requires
        s.busy,
    ensures
        step_state(s, TriggerEvent::Ingest, cfg) == s,
        step_action(s, TriggerEvent::Ingest, cfg) == TriggerAction::DropEvent,
{
}

/// An evaluation begins only on an idle device, and marks it busy: the only
/// event answered with `BeginFetch` is an ingestion on a non-busy state.
pub proof fn lemma_fetch_begins_only_idle(s: DeviceState, e: TriggerEvent, cfg: TriggerConfig)
    requires
        step_action(s, e, cfg) == TriggerAction::BeginFetch,
    ensures
        !s.busy,
        e is Ingest,
        step_state(s, e, cfg).busy,
{
}

/// At most one alert per stability episode: once the episode flag is set no
/// event dispatches another alert, and the flag falls only when a nonempty
/// window is observed not stable — which ends the episode.
pub proof fn lemma_one_alert_per_episode(s: DeviceState, e: TriggerEvent, cfg: TriggerConfig)
    requires
        s.episode_alerted,
    ensures
        step_action(s, e, cfg) != TriggerAction::Dispatch,
        !step_state(s, e, cfg).episode_alerted ==> (match e {
            TriggerEvent::FetchOk(rs) => {
                &&& window_values(rs@, cfg.metric_key@).len() > 0
                &&& !window_stable(rs@, cfg)
            },
            _ => false,
        }),
{
}

/// An alert is dispatched only for a stable window on a device whose
/// current episode was not yet alerted, and dispatching sets the flag.
pub proof fn lemma_dispatch_starts_episode(s: DeviceState, e: TriggerEvent, cfg: TriggerConfig)
    requires
        step_action(s, e, cfg) == TriggerAction::Dispatch,
    ensures
        !s.episode_alerted,
        step_state(s, e, cfg).episode_alerted,
        e matches TriggerEvent::FetchOk(rs) && window_stable(rs@, cfg),
{
}

/// The device state after the first `k` events of a run.
pub open spec fn state_after(
    s0: DeviceState,
    events: Seq<TriggerEvent>,
    cfg: TriggerConfig,
    k: int,
) -> DeviceState
    decreases k,
{
    if k <= 0 {
        s0
    } else {
        step_state(state_after(s0, events, cfg, k - 1), events[k - 1], cfg)
    }
}

/// An event that observes the signal not stable: a fetched nonempty window
/// judged not stable. Only such an observation ends a stability episode.
pub open spec fn observes_not_stable(e: TriggerEvent, cfg: TriggerConfig) -> bool {
    match e {
        TriggerEvent::FetchOk(rs) => {
            &&& window_values(rs@, cfg.metric_key@).len() > 0
            &&& !window_stable(rs@, cfg)
        },
        _ => false,
    }
}

proof fn lemma_flag_persists(
    s0: DeviceState,
    events: Seq<TriggerEvent>,
    cfg: TriggerConfig,
    i: int,
    k: int,
)
    requires
        0 <= i <= k <= events.len(),
        state_after(s0, events, cfg, i).episode_alerted,
        forall|m: int| i <= m < k ==> !observes_not_stable(#[trigger] events[m], cfg),
    ensures
        state_after(s0, events, cfg, k).episode_alerted,
    decreases k - i,
{
    if k > i {
        lemma_flag_persists(s0, events, cfg, i, k - 1);
    }
}

/// At most one alert per stability episode, over any whole run of events
/// for one device: between two dispatches some event in between observed
/// the signal not stable, ending the first episode.
pub proof fn lemma_one_dispatch_per_episode(
    s0: DeviceState,
    events: Seq<TriggerEvent>,
    cfg: TriggerConfig,
    i: int,
    j: int,
)
    requires
        0 <= i < j < events.len(),
        step_action(state_after(s0, events, cfg, i), events[i], cfg) == TriggerAction::Dispatch,
        step_action(state_after(s0, events, cfg, j), events[j], cfg) == TriggerAction::Dispatch,
    ensures
        exists|k: int| i < k < j && observes_not_stable(#[trigger] events[k], cfg),
{
    lemma_dispatch_starts_episode(state_after(s0, events, cfg, i), events[i], cfg);
    assert(state_after(s0, events, cfg, i + 1).episode_alerted);
    if !(exists|k: int| i < k < j && observes_not_stable(#[trigger] events[k], cfg)) {
        assert(forall|m: int| i + 1 <= m < j ==> !observes_not_stable(#[trigger] events[m], cfg));
        lemma_flag_persists(s0, events, cfg, i + 1, j);
        lemma_dispatch_starts_episode(state_after(s0, events, cfg, j), events[j], cfg);
        assert(false);
    }
}

/// One device's slot in the coordinator's table.
struct DeviceEntry {
    device: u64,
    state: DeviceState,
}

/// The trigger coordinator: the configuration and one state per device
/// that has been seen. A device that never appeared is in the initial
/// state.
pub struct Coordinator {
    config: TriggerConfig,
    entries: Vec<DeviceEntry>,
}

impl Coordinator {
    spec fn entries_seq(self) -> Seq<DeviceEntry> {
        self.entries@
    }

    /// The configuration the coordinator was built with.
    pub closed spec fn config_spec(self) -> TriggerConfig {
        self.config
    }

    /// Each device occupies at most one slot.
    pub closed spec fn wf(self) -> bool {
        &&& self.config.wf()
        &&& forall|i: int, j: int|
            0 <= i < j < self.entries_seq().len()
                ==> (#[trigger] self.entries_seq()[i]).device
                    != (#[trigger] self.entries_seq()[j]).device
    }

    /// The tracked state of a device: its slot if it has one, the initial
    /// state otherwise.
    pub closed spec fn state_of(self, d: u64) -> DeviceState {
        if exists|i: int|
            0 <= i < self.entries_seq().len() && (#[trigger] self.entries_seq()[i]).device == d {
            let i = choose|i: int|
                0 <= i < self.entries_seq().len() && (#[trigger] self.entries_seq()[i]).device
                    == d;
            self.entries_seq()[i].state
        } else {
            DeviceState { busy: false, episode_alerted: false }
        }
    }

    /// A fresh coordinator: no device seen, every device idle.
    pub fn new(config: TriggerConfig) -> (r: Coordinator)
        requires
            config.wf(),
        ensures
            r.wf(),
            r.config_spec() == config,
            forall|d: u64| r.state_of(d)
                == (DeviceState { busy: false, episode_alerted: false }),
    {
        Coordinator { config, entries: Vec::new() }
    }

    /// Handles one event for one device: runs the state machine on that
    /// device's state alone. Every other device's state is untouched, so
    /// neither a dispatch failure nor anything else happening to one device
    /// can block or perturb evaluation for another.
    pub fn handle_event(&mut self, device: u64, event: TriggerEvent) -> (a: TriggerAction)
        requires
            old(self).wf(),
        ensures
            final(self).wf(),
            final(self).config_spec() == old(self).config_spec(),
            final(self).state_of(device)
                == step_state(old(self).state_of(device), event, old(self).config_spec()),
            a == step_action(old(self).state_of(device), event, old(self).config_spec()),
            forall|d: u64| d != device ==> final(self).state_of(d) == old(self).state_of(d),
    {
        let mut idx: usize = 0;
        let n = self.entries.len();
        while idx < n && self.entries[idx].device != device
            invariant
                n == self.entries@.len(),
                0 <= idx <= n,
                forall|k: int| 0 <= k < idx as int
                    ==> (#[trigger] self.entries@[k]).device != device,
            decreases n - idx,
        {
            idx = idx + 1;
        }
        let cur = if idx < self.entries.len() {
            proof {
                lemma_unique_lookup(*self, idx as int, device);
            }
            self.entries[idx].state
        } else {
            proof {
                assert(!exists|i: int|
                    0 <= i < self.entries@.len() && (#[trigger] self.entries@[i]).device
                        == device);
            }
            DeviceState::initial()
        };
        let (ns, act) = device_step(cur, event, &self.config);
        let ghost before = *self;
        if idx < self.entries.len() {
            self.entries[idx] = DeviceEntry { device, state: ns };
            proof {
                assert(self.wf());
                lemma_unique_lookup(*self, idx as int, device);
                assert forall|d: u64| d != device implies self.state_of(d)
                    == before.state_of(d) by {
                    lemma_state_of_unchanged(before, *self, idx as int, d);
                }
            }
        } else {
            self.entries.push(DeviceEntry { device, state: ns });
            proof {
                assert(self.wf());
                lemma_unique_lookup(*self, self.entries@.len() - 1, device);
                assert forall|d: u64| d != device implies self.state_of(d)
                    == before.state_of(d) by {
                    lemma_state_of_unchanged_push(before, *self, d);
                }
            }
        }
        act
    }
}

/// In a well-formed table, the slot at `idx` is the one the `state_of`
/// lookup chooses for its device.
proof fn lemma_unique_lookup(c: Coordinator, idx: int, device: u64)
    requires
        c.wf(),
        0 <= idx < c.entries_seq().len(),
        c.entries_seq()[idx].device == device,
    ensures
        c.state_of(device) == c.entries_seq()[idx].state,
{
    let entries = c.entries_seq();
    assert(entries[idx].device == device);
    let i = choose|i: int| 0 <= i < entries.len() && (#[trigger] entries[i]).device == device;
    if i < idx {
        assert(entries[i].device != entries[idx].device);
    } else if i > idx {
        assert(entries[idx].device != entries[i].device);
    }
}

/// Changing one slot of a well-formed table, away from and not to device
/// `d`, leaves `d`'s looked-up state unchanged.
proof fn lemma_state_of_unchanged(c1: Coordinator, c2: Coordinator, idx: int, d: u64)
    requires
        c1.wf(),
        0 <= idx < c1.entries_seq().len(),
        c2.entries_seq().len() == c1.entries_seq().len(),
        forall|k: int| 0 <= k < c1.entries_seq().len() && k != idx
            ==> c2.entries_seq()[k] == #[trigger] c1.entries_seq()[k],
        c1.entries_seq()[idx].device != d,
        c2.entries_seq()[idx].device != d,
    ensures
        c2.state_of(d) == c1.state_of(d),
{
    let before = c1.entries_seq();
    let after = c2.entries_seq();
    if exists|i: int| 0 <= i < before.len() && (#[trigger] before[i]).device == d {
        let i = choose|i: int| 0 <= i < before.len() && (#[trigger] before[i]).device == d;
        assert(i != idx);
        assert(after[i].device == d);
        let ia = choose|i: int| 0 <= i < after.len() && (#[trigger] after[i]).device == d;
        assert(ia != idx);
        assert(before[ia].device == d);
        if ia < i {
            assert(before[ia].device != before[i].device);
        } else if ia > i {
            assert(before[i].device != before[ia].device);
        }
        assert(after[ia].state == before[i].state);
    } else {
        assert forall|i: int| 0 <= i < after.len() implies (#[trigger] after[i]).device != d by {
            if i != idx {
                assert(before[i].device != d);
            }
        }
    }
}

/// Appending a slot for another device leaves `d`'s looked-up state
/// unchanged.
proof fn lemma_state_of_unchanged_push(c1: Coordinator, c2: Coordinator, d: u64)
    requires
        c1.wf(),
        c2.entries_seq().len() == c1.entries_seq().len() + 1,
        forall|k: int| 0 <= k < c1.entries_seq().len()
            ==> c2.entries_seq()[k] == #[trigger] c1.entries_seq()[k],
        c2.entries_seq()[c1.entries_seq().len() as int].device != d,
    ensures
        c2.state_of(d) == c1.state_of(d),
{
    let before = c1.entries_seq();
    let after = c2.entries_seq();
    if exists|i: int| 0 <= i < before.len() && (#[trigger] before[i]).device == d {
        let i = choose|i: int| 0 <= i < before.len() && (#[trigger] before[i]).device == d;
        assert(after[i].device == d);
        let ia = choose|i: int| 0 <= i < after.len() && (#[trigger] after[i]).device == d;
        assert(ia < before.len());
        assert(before[ia].device == d);
        if ia < i {
            assert(before[ia].device != before[i].device);
        } else if ia > i {
            assert(before[i].device != before[ia].device);
        }
        assert(after[ia].state == before[i].state);
    } else {
        assert forall|i: int| 0 <= i < after.len() implies (#[trigger] after[i]).device != d by {
            if i < before.len() {
                assert(before[i].device != d);
            }
        }
    }
}

} // verus!
