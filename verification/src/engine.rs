//! The per-cycle evaluation engine: all monitoring state and alert logic.
//! Fed with probe results once per cycle, it returns the events to record and
//! notify.

use crate::config::{Config, Target};
use crate::events::{events_of, listed, push_event, EventModel, PendingEvent};
use crate::hosts::{host_event, host_settled, settle_host};
use crate::ladder::{
    catch_up_layer, step_host_layer, step_layer, still_down_event, LayerState,
};
use crate::layer;
use crate::layer::{implied_down, Layer, LayerMap, Status};
use crate::probes::ProbeResult;
use crate::snapshot::{
    layer_snaps_of, make_verdict, verdict_on, verdict_text, LayerSnap, LayerSnapModel, Snapshot,
    TargetSnap, TargetSnapModel,
};
use crate::status::{
    aggregates, has_layer, judge_layer, layer_present, measure_layer, models_of, statuses, LayerAgg,
};
use crate::target::{TargetModel, TargetState};
use vstd::prelude::*;

verus! {

/// What the engine knows.
pub struct EngineModel {
    pub cfg: Config,
    /// Indexed like `cfg.targets`.
    pub targets: Seq<TargetModel>,
    pub layers: LayerMap<LayerState>,
    pub aggs: LayerMap<LayerAgg>,
}

impl EngineModel {
    /// One state per target; a layer exists where a target belongs to it, and
    /// only the internet can be degraded; no window is larger than configured.
    pub open spec fn well_formed(self) -> bool {
        &&& self.targets.len() == self.cfg.targets@.len()
        &&& forall|l: Layer| (#[trigger] self.layers.at(l)) is Some <==> has_layer(self.cfg.targets@, l)
        &&& forall|l: Layer|
            l != Layer::Internet && (#[trigger] self.layers.at(l)) is Some ==> self.layers.at(
                l,
            )->Some_0.status != Status::Degraded
        &&& self.cfg.window_fits()
        &&& forall|i: int|
            0 <= i < self.targets.len() ==> (#[trigger] self.targets[i]).window.len()
                <= self.cfg.window_samples || self.targets[i].window.len() <= 1
    }

    /// The targets after one cycle of probes. A target without a result is as
    /// it was.
    pub open spec fn probed(self, ts: u64, mono: u64, results: Seq<ProbeResult>) -> Seq<TargetModel> {
        Seq::new(
            self.targets.len(),
            |i: int|
                if i < results.len() {
                    self.targets[i].probed(results[i], self.cfg, ts, mono)
                } else {
                    self.targets[i]
                },
        )
    }

    /// The status of every layer after one cycle of probes.
    pub open spec fn statuses_after(self, ts: u64, mono: u64, results: Seq<ProbeResult>) -> LayerMap<
        Status,
    > {
        statuses(self.cfg, self.probed(ts, mono, results))
    }

    /// A layer's state once its status has been judged anew.
    pub open spec fn layer_moved(self, layer: Layer, cur: LayerMap<Status>, ts: u64, mono: u64) -> Option<
        LayerState,
    > {
        match self.layers.at(layer) {
            Some(ls) => Some(
                if layer == Layer::Host {
                    ls.host_moved(cur.at(layer)->Some_0, ts, mono)
                } else {
                    ls.moved(layer, self.cfg, cur, ts, mono)
                },
            ),
            None => None,
        }
    }

    /// The event of a ladder layer whose status has been judged anew.
    pub open spec fn layer_event(
        self,
        layer: Layer,
        cur: LayerMap<Status>,
        aggs: LayerMap<LayerAgg>,
        ts: u64,
        mono: u64,
    ) -> Option<EventModel> {
        match self.layers.at(layer) {
            Some(ls) => ls.move_event(layer, self.cfg, cur, aggs.at(layer)->Some_0, ts, mono),
            None => None,
        }
    }

    /// The belated announcement of a ladder layer's outage.
    pub open spec fn layer_catch_up(
        self,
        layer: Layer,
        cur: LayerMap<Status>,
        ts: u64,
        mono: u64,
    ) -> Option<EventModel> {
        match self.layer_moved(layer, cur, ts, mono) {
            Some(ls) if ls.overdue(layer, cur) => Some(
                still_down_event(layer, cur, ls.lasted(ts, mono)),
            ),
            _ => None,
        }
    }

    /// A layer's state after the cycle.
    pub open spec fn layer_after(self, layer: Layer, cur: LayerMap<Status>, ts: u64, mono: u64) -> Option<
        LayerState,
    > {
        match self.layer_moved(layer, cur, ts, mono) {
            Some(ls) if layer != Layer::Host && ls.overdue(layer, cur) => Some(
                LayerState { notified_down: true, ..ls },
            ),
            other => other,
        }
    }

    /// A target's state after the cycle.
    pub open spec fn target_after(self, i: int, probed: Seq<TargetModel>, lan_down: bool) -> TargetModel {
        let t = self.cfg.targets@[i];
        if t.layer == Layer::Host {
            host_settled(t, self.targets[i].up, probed[i], lan_down)
        } else {
            probed[i]
        }
    }

    /// The events of the hosts among the targets before `n`.
    pub open spec fn host_events(
        self,
        probed: Seq<TargetModel>,
        lan_down: bool,
        ts: u64,
        mono: u64,
        n: int,
    ) -> Seq<EventModel>
        decreases n,
    {
        if n <= 0 {
            Seq::empty()
        } else {
            let t = self.cfg.targets@[n - 1];
            self.host_events(probed, lan_down, ts, mono, n - 1) + (if t.layer == Layer::Host {
                listed(
                    host_event(t, self.targets[n - 1].up, probed[n - 1], lan_down, ts, mono),
                )
            } else {
                Seq::empty()
            })
        }
    }

    /// The events of the ladder layers whose status changed, in rank order.
    pub open spec fn change_events(
        self,
        cur: LayerMap<Status>,
        aggs: LayerMap<LayerAgg>,
        ts: u64,
        mono: u64,
    ) -> Seq<EventModel> {
        listed(self.layer_event(Layer::Lan, cur, aggs, ts, mono)) + listed(
            self.layer_event(Layer::Gateway, cur, aggs, ts, mono),
        ) + listed(self.layer_event(Layer::Internet, cur, aggs, ts, mono)) + listed(
            self.layer_event(Layer::Dns, cur, aggs, ts, mono),
        )
    }

    /// The belated announcements of ladder layers, in rank order.
    pub open spec fn overdue_events(self, cur: LayerMap<Status>, ts: u64, mono: u64) -> Seq<EventModel> {
        listed(self.layer_catch_up(Layer::Lan, cur, ts, mono)) + listed(
            self.layer_catch_up(Layer::Gateway, cur, ts, mono),
        ) + listed(self.layer_catch_up(Layer::Internet, cur, ts, mono)) + listed(
            self.layer_catch_up(Layer::Dns, cur, ts, mono),
        )
    }

    /// The events of one cycle: changed ladder layers, overdue announcements,
    /// hosts.
    pub open spec fn events(self, ts: u64, mono: u64, results: Seq<ProbeResult>) -> Seq<EventModel> {
        let probed = self.probed(ts, mono, results);
        let cur = statuses(self.cfg, probed);
        self.change_events(cur, aggregates(self.cfg, probed), ts, mono) + self.overdue_events(
            cur,
            ts,
            mono,
        ) + self.host_events(
            probed,
            layer::implied(Layer::Host, cur),
            ts,
            mono,
            probed.len() as int,
        )
    }

    /// The state after one cycle.
    pub open spec fn after(self, ts: u64, mono: u64, results: Seq<ProbeResult>) -> EngineModel {
        let probed = self.probed(ts, mono, results);
        let cur = statuses(self.cfg, probed);
        let lan_down = layer::implied(Layer::Host, cur);
        EngineModel {
            cfg: self.cfg,
            targets: Seq::new(
                probed.len(),
                |i: int| self.target_after(i, probed, lan_down),
            ),
            layers: LayerMap::from_fn(|l: Layer| self.layer_after(l, cur, ts, mono)),
            aggs: aggregates(self.cfg, probed),
        }
    }
}

/// State recovered from the database at startup, so a restart in the middle
/// of an outage doesn't reset the story (double-counted outages, lost
/// durations, spurious recovery alerts).
pub struct ResumeState {
    /// Indexed like `cfg.targets`.
    pub targets: Vec<ResumeTarget>,
    pub layers: LayerMap<ResumeLayer>,
}

#[derive(Clone, Copy, Debug)]
pub struct ResumeTarget {
    pub up: bool,
    pub down_since: Option<u64>,
    pub notified_down: bool,
    /// Failures since the last success.
    pub fails: u32,
    /// Successes since the last failure.
    pub oks: u32,
}

#[derive(Clone, Copy, Debug)]
pub struct ResumeLayer {
    pub down_since: u64,
    pub notified_down: bool,
}

impl EngineModel {
    /// A target at startup: down if it was so when its state was stored,
    /// healthy otherwise, and in the streak that it was in.
    pub open spec fn target_at_start(resume: Option<ResumeState>, i: int) -> TargetModel {
        match resume {
            Some(r) if i < r.targets@.len() => {
                let rt = r.targets@[i];
                let streak = TargetModel {
                    consec_fail: rt.fails,
                    consec_ok: rt.oks,
                    ..TargetModel::fresh()
                };
                if rt.up {
                    streak
                } else {
                    TargetModel {
                        up: false,
                        down_since: rt.down_since,
                        notified_down: rt.notified_down,
                        ..streak
                    }
                }
            },
            _ => TargetModel::fresh(),
        }
    }

    /// A layer at startup: down since its outage began if it was so when its
    /// state was stored, up from now otherwise.
    pub open spec fn layer_at_start(now: u64, resume: Option<ResumeState>, layer: Layer) -> LayerState {
        match resume {
            Some(r) if r.layers.at(layer) is Some => LayerState {
                status: Status::Down,
                since: r.layers.at(layer)->Some_0.down_since,
                notified_down: r.layers.at(layer)->Some_0.notified_down,
                ..LayerState::fresh(now)
            },
            _ => LayerState::fresh(now),
        }
    }

    /// The state at startup.
    pub open spec fn started(cfg: Config, now: u64, resume: Option<ResumeState>) -> EngineModel {
        EngineModel {
            cfg,
            targets: Seq::new(
                cfg.targets@.len(),
                |i: int| EngineModel::target_at_start(resume, i),
            ),
            layers: LayerMap::from_fn(
                |l: Layer|
                    if has_layer(cfg.targets@, l) {
                        Some(EngineModel::layer_at_start(now, resume, l))
                    } else {
                        None
                    },
            ),
            aggs: LayerMap::from_fn(|l: Layer| None),
        }
    }
}

impl EngineModel {
    /// The status of every layer.
    pub open spec fn current(self) -> LayerMap<Status> {
        LayerMap::from_fn(
            |l: Layer|
                match self.layers.at(l) {
                    Some(ls) => Some(ls.status),
                    None => None,
                },
        )
    }

    /// The layer's targets before `n`, as they are shown.
    pub open spec fn target_snaps(self, layer: Layer, n: int) -> Seq<TargetSnapModel>
        decreases n,
    {
        if n <= 0 {
            Seq::empty()
        } else {
            let rest = self.target_snaps(layer, n - 1);
            let t = self.cfg.targets@[n - 1];
            let st = self.targets[n - 1];
            if t.layer == layer {
                rest.push(
                    TargetSnapModel {
                        name: t.name@,
                        up: st.up,
                        last_ms: st.last(),
                        loss_pct: st.loss(),
                    },
                )
            } else {
                rest
            }
        }
    }

    /// A layer as it is shown, once it has been measured.
    pub open spec fn layer_snap(self, layer: Layer) -> Seq<LayerSnapModel> {
        match (self.layers.at(layer), self.aggs.at(layer)) {
            (Some(ls), Some(agg)) => seq![
                LayerSnapModel {
                    layer,
                    label: layer.title(),
                    status: ls.status,
                    since: ls.since,
                    loss_pct: agg.loss_pct,
                    latency_ms: agg.latency_ms,
                    targets: self.target_snaps(layer, self.targets.len() as int),
                },
            ],
            _ => Seq::empty(),
        }
    }

    /// Every layer as it is shown, in rank order.
    pub open spec fn layer_snaps(self) -> Seq<LayerSnapModel> {
        self.layer_snap(Layer::Lan) + self.layer_snap(Layer::Gateway) + self.layer_snap(
            Layer::Internet,
        ) + self.layer_snap(Layer::Dns) + self.layer_snap(Layer::Host)
    }
}

/// The monitoring state of every target and layer.
pub struct Engine {
    cfg: Config,
    tstates: Vec<TargetState>,
    layers: LayerMap<LayerState>,
    aggs: LayerMap<LayerAgg>,
}

impl View for Engine {
    type V = EngineModel;

    closed spec fn view(&self) -> EngineModel {
        EngineModel {
            cfg: self.cfg,
            targets: models_of(self.tstates@),
            layers: self.layers,
            aggs: self.aggs,
        }
    }
}

/// Records one cycle of probe results. Gives which targets were up before.
fn probe_targets(
    states: &mut Vec<TargetState>,
    cfg: &Config,
    ts: u64,
    mono: u64,
    results: &[ProbeResult],
) -> (was_up: Vec<bool>)
    requires
        results@.len() <= old(states)@.len(),
    ensures
        final(states)@.len() == old(states)@.len(),
        was_up@.len() == old(states)@.len(),
        forall|i: int|
            0 <= i < results@.len() ==> (#[trigger] final(states)@[i])@ == old(states)@[i]@.probed(
                results@[i],
                *cfg,
                ts,
                mono,
            ),
        forall|i: int|
            results@.len() <= i < old(states)@.len() ==> (#[trigger] final(states)@[i])@
                == old(states)@[i]@,
        forall|i: int|
            0 <= i < old(states)@.len() ==> #[trigger] was_up@[i] == old(states)@[i]@.up,
{
    let ghost before = states@;
    let mut was_up: Vec<bool> = Vec::new();
    let mut i: usize = 0;
    while i < states.len()
        invariant
            i <= states@.len(),
            states@.len() == before.len(),
            results@.len() <= before.len(),
            was_up@.len() == i,
            forall|j: int| i <= j < before.len() ==> #[trigger] states@[j] == before[j],
            forall|j: int|
                0 <= j < i && j < results@.len() ==> (#[trigger] states@[j])@
                    == before[j]@.probed(results@[j], *cfg, ts, mono),
            forall|j: int|
                0 <= j < i && j >= results@.len() ==> (#[trigger] states@[j])@ == before[j]@,
            forall|j: int| 0 <= j < i ==> #[trigger] was_up@[j] == before[j]@.up,
        decreases before.len() - i,
    {
        was_up.push(states[i].is_up());
        if i < results.len() {
            states[i].probe(&results[i], cfg, ts, mono);
        }
        i = i + 1;
    }
    was_up
}

/// Judges every layer anew, the lower ones first.
fn step_layers(
    layers: &mut LayerMap<LayerState>,
    cfg: &Config,
    cur: &LayerMap<Status>,
    aggs: &LayerMap<LayerAgg>,
    ts: u64,
    mono: u64,
    model: Ghost<EngineModel>,
) -> (events: Vec<PendingEvent>)
    requires
        model@.cfg == *cfg,
        model@.layers == *old(layers),
        cfg.window_fits(),
        forall|l: Layer|
            (#[trigger] old(layers).at(l)) is Some ==> cur.at(l) is Some && aggs.at(l) is Some,
    ensures
        forall|l: Layer|
            #[trigger] final(layers).at(l) == model@.layer_moved(l, *cur, ts, mono),
        events_of(events@) == model@.change_events(*cur, *aggs, ts, mono),
{
    let ghost before = *layers;
    assert(before.at(Layer::Lan) is Some ==> cur.lan is Some && aggs.lan is Some);
    assert(before.at(Layer::Gateway) is Some ==> cur.gateway is Some && aggs.gateway is Some);
    assert(before.at(Layer::Internet) is Some ==> cur.internet is Some && aggs.internet is Some);
    assert(before.at(Layer::Dns) is Some ==> cur.dns is Some && aggs.dns is Some);
    assert(before.at(Layer::Host) is Some ==> cur.host is Some);
    let mut events: Vec<PendingEvent> = Vec::new();
    assert(events_of(events@) =~= Seq::<EventModel>::empty());
    step_layer(layers, Layer::Lan, cfg, cur, aggs, ts, mono, &mut events);
    step_layer(layers, Layer::Gateway, cfg, cur, aggs, ts, mono, &mut events);
    step_layer(layers, Layer::Internet, cfg, cur, aggs, ts, mono, &mut events);
    step_layer(layers, Layer::Dns, cfg, cur, aggs, ts, mono, &mut events);
    step_host_layer(layers, cur, ts, mono);
    assert(events_of(events@) =~= model@.change_events(*cur, *aggs, ts, mono));
    events
}

/// A layer that went down while a lower layer was already down never alerted
/// (suppressed as implied). If the lower layer has recovered but this one is
/// still down, that outage now stands on its own - this lists the overdue
/// alerts. They are of kind "still_down" so outage counts (which tally "down"
/// events) aren't inflated. Hosts are settled one by one, so this walks the
/// ladder only.
fn catch_up_layers(
    layers: &mut LayerMap<LayerState>,
    cur: &LayerMap<Status>,
    ts: u64,
    mono: u64,
    events: &mut Vec<PendingEvent>,
    model: Ghost<EngineModel>,
)
    requires
        forall|l: Layer|
            #[trigger] old(layers).at(l) == model@.layer_moved(l, *cur, ts, mono),
    ensures
        forall|l: Layer|
            #[trigger] final(layers).at(l) == model@.layer_after(l, *cur, ts, mono),
        events_of(final(events)@) == events_of(old(events)@) + model@.overdue_events(
            *cur,
            ts,
            mono,
        ),
{
    let ghost before = *layers;
    let ghost start = events_of(events@);
    assert(before.at(Layer::Lan) == model@.layer_moved(Layer::Lan, *cur, ts, mono));
    assert(before.at(Layer::Gateway) == model@.layer_moved(Layer::Gateway, *cur, ts, mono));
    assert(before.at(Layer::Internet) == model@.layer_moved(Layer::Internet, *cur, ts, mono));
    assert(before.at(Layer::Dns) == model@.layer_moved(Layer::Dns, *cur, ts, mono));
    assert(before.at(Layer::Host) == model@.layer_moved(Layer::Host, *cur, ts, mono));
    catch_up_layer(layers, Layer::Lan, cur, ts, mono, events);
    catch_up_layer(layers, Layer::Gateway, cur, ts, mono, events);
    catch_up_layer(layers, Layer::Internet, cur, ts, mono, events);
    catch_up_layer(layers, Layer::Dns, cur, ts, mono, events);
    assert(events_of(events@) =~= start + model@.overdue_events(*cur, ts, mono));
}

/// Settles every host and lists their events.
fn settle_hosts(
    states: &mut Vec<TargetState>,
    targets: &Vec<Target>,
    was_up: &Vec<bool>,
    lan_down: bool,
    ts: u64,
    mono: u64,
    events: &mut Vec<PendingEvent>,
    model: Ghost<EngineModel>,
)
    requires
        old(states)@.len() == targets@.len(),
        was_up@.len() == targets@.len(),
        model@.cfg.targets@ == targets@,
        model@.targets.len() == targets@.len(),
        forall|i: int| 0 <= i < targets@.len() ==> #[trigger] was_up@[i] == model@.targets[i].up,
    ensures
        final(states)@.len() == targets@.len(),
        forall|i: int|
            0 <= i < targets@.len() ==> (#[trigger] final(states)@[i])@ == model@.target_after(
                i,
                models_of(old(states)@),
                lan_down,
            ),
        events_of(final(events)@) == events_of(old(events)@) + model@.host_events(
            models_of(old(states)@),
            lan_down,
            ts,
            mono,
            targets@.len() as int,
        ),
{
    let ghost before = states@;
    let ghost probed = models_of(before);
    let ghost start = events_of(events@);
    let mut i: usize = 0;
    assert(events_of(events@) =~= start + model@.host_events(probed, lan_down, ts, mono, 0));
    while i < targets.len()
        invariant
            i <= targets@.len(),
            states@.len() == targets@.len(),
            before.len() == targets@.len(),
            probed == models_of(before),
            was_up@.len() == targets@.len(),
            model@.cfg.targets@ == targets@,
            model@.targets.len() == targets@.len(),
            forall|j: int|
                0 <= j < targets@.len() ==> #[trigger] was_up@[j] == model@.targets[j].up,
            forall|j: int| i <= j < targets@.len() ==> #[trigger] states@[j] == before[j],
            forall|j: int|
                0 <= j < i ==> (#[trigger] states@[j])@ == model@.target_after(
                    j,
                    probed,
                    lan_down,
                ),
            events_of(events@) == start + model@.host_events(
                probed,
                lan_down,
                ts,
                mono,
                i as int,
            ),
        decreases targets@.len() - i,
    {
        assert(probed[i as int] == before[i as int]@);
        if targets[i].layer == Layer::Host {
            let event = settle_host(&targets[i], was_up[i], &mut states[i], lan_down, ts, mono);
            push_event(events, event);
        }
        i = i + 1;
        assert(events_of(events@) =~= start + model@.host_events(
            probed,
            lan_down,
            ts,
            mono,
            i as int,
        ));
    }
}

/// A layer at startup, if it has targets.
fn start_layer(
    targets: &Vec<Target>,
    now: u64,
    resume: &Option<ResumeState>,
    layer: Layer,
) -> (r: Option<LayerState>)
    ensures
        r == (if has_layer(targets@, layer) {
            Some(EngineModel::layer_at_start(now, *resume, layer))
        } else {
            None
        }),
{
    if !layer_present(targets, layer) {
        return None;
    }
    let mut ls = LayerState {
        status: Status::Up,
        since: now,
        since_mono: None,
        notified_down: false,
        notified_degraded: false,
        last_degraded_alert: None,
    };
    if let Some(r) = resume {
        if let Some(rl) = r.layers.get(layer) {
            ls.status = Status::Down;
            ls.since = rl.down_since;
            ls.notified_down = rl.notified_down;
        }
    }
    Some(ls)
}

impl Engine {
    /// Starts with every target healthy, except those that a resumed state
    /// has down.
    pub fn new(cfg: Config, now: u64, resume: Option<ResumeState>) -> (r: Engine)
        requires
            cfg.window_fits(),
        ensures
            r@ == EngineModel::started(cfg, now, resume),
            r@.well_formed(),
    {
        let mut tstates: Vec<TargetState> = Vec::new();
        let mut i: usize = 0;
        while i < cfg.targets.len()
            invariant
                i <= cfg.targets@.len(),
                tstates@.len() == i,
                forall|j: int|
                    0 <= j < i ==> (#[trigger] tstates@[j])@ == EngineModel::target_at_start(
                        resume,
                        j,
                    ),
            decreases cfg.targets@.len() - i,
        {
            let mut st = TargetState::new();
            if let Some(r) = &resume {
                if i < r.targets.len() {
                    let rt = r.targets[i];
                    st.resume_streak(rt.fails, rt.oks);
                    if !rt.up {
                        st.resume_down(rt.down_since, rt.notified_down);
                    }
                }
            }
            tstates.push(st);
            i = i + 1;
        }
        let layers: LayerMap<LayerState> = LayerMap {
            lan: start_layer(&cfg.targets, now, &resume, Layer::Lan),
            gateway: start_layer(&cfg.targets, now, &resume, Layer::Gateway),
            internet: start_layer(&cfg.targets, now, &resume, Layer::Internet),
            dns: start_layer(&cfg.targets, now, &resume, Layer::Dns),
            host: start_layer(&cfg.targets, now, &resume, Layer::Host),
        };
        let r = Engine {
            cfg,
            tstates,
            layers,
            aggs: LayerMap { lan: None, gateway: None, internet: None, dns: None, host: None },
        };
        assert(r@.targets =~= EngineModel::started(cfg, now, resume).targets);
        r
    }
}

impl Engine {
    /// Feeds one cycle of probe results (indexed like `cfg.targets`).
    /// `ts` is the wall-clock cycle timestamp (for records and display);
    /// `mono` is the monotonic now in nanoseconds (for durations and
    /// cooldowns).
    pub fn evaluate(&mut self, ts: u64, mono: u64, results: &[ProbeResult]) -> (r: Vec<PendingEvent>)
        requires
            old(self)@.well_formed(),
            results@.len() <= old(self)@.targets.len(),
        ensures
            final(self)@ == old(self)@.after(ts, mono, results@),
            events_of(r@) == old(self)@.events(ts, mono, results@),
            final(self)@.well_formed(),
    {
        let ghost before = self@;
        let ghost probed = before.probed(ts, mono, results@);
        let was_up = probe_targets(&mut self.tstates, &self.cfg, ts, mono, results);
        assert(models_of(self.tstates@) =~= probed);
        assert forall|i: int| 0 <= i < probed.len() implies (#[trigger] probed[i]).window.len()
            <= self.cfg.window_samples || probed[i].window.len() <= 1 by {
            assert(before.targets[i].window.len() <= self.cfg.window_samples
                || before.targets[i].window.len() <= 1);
        }
        assert forall|i: int| 0 <= i < self.tstates@.len() implies (
        #[trigger] self.tstates@[i])@.window.len() < 0x20_0000_0000_0000 by {
            assert(probed[i] == self.tstates@[i]@);
        }

        let aggs: LayerMap<LayerAgg> = LayerMap {
            lan: measure_layer(&self.cfg, &self.tstates, Layer::Lan),
            gateway: measure_layer(&self.cfg, &self.tstates, Layer::Gateway),
            internet: measure_layer(&self.cfg, &self.tstates, Layer::Internet),
            dns: measure_layer(&self.cfg, &self.tstates, Layer::Dns),
            host: measure_layer(&self.cfg, &self.tstates, Layer::Host),
        };
        let cur: LayerMap<Status> = LayerMap {
            lan: judge_layer(&self.cfg, &self.tstates, &aggs.lan, Layer::Lan),
            gateway: judge_layer(&self.cfg, &self.tstates, &aggs.gateway, Layer::Gateway),
            internet: judge_layer(&self.cfg, &self.tstates, &aggs.internet, Layer::Internet),
            dns: judge_layer(&self.cfg, &self.tstates, &aggs.dns, Layer::Dns),
            host: judge_layer(&self.cfg, &self.tstates, &aggs.host, Layer::Host),
        };
        assert(cur == statuses(self.cfg, probed));
        assert(aggs == aggregates(self.cfg, probed));
        assert forall|l: Layer| (#[trigger] before.layers.at(l)) is Some implies cur.at(l) is Some
            && aggs.at(l) is Some by {
            assert(has_layer(before.cfg.targets@, l));
        }
        let mut events = step_layers(
            &mut self.layers,
            &self.cfg,
            &cur,
            &aggs,
            ts,
            mono,
            Ghost(before),
        );
        catch_up_layers(&mut self.layers, &cur, ts, mono, &mut events, Ghost(before));

        // Host-layer targets alert individually: each host is its own story.
        // Same suppression and catch-up rules as layers, per target.
        let host_implied: bool = implied_down(Layer::Host, &cur);
        settle_hosts(
            &mut self.tstates,
            &self.cfg.targets,
            &was_up,
            host_implied,
            ts,
            mono,
            &mut events,
            Ghost(before),
        );
        self.aggs = aggs;
        proof {
            let after = before.after(ts, mono, results@);
            assert(self@.targets =~= after.targets);
            assert(self.layers.at(Layer::Lan) == after.layers.at(Layer::Lan));
            assert(self.layers.at(Layer::Gateway) == after.layers.at(Layer::Gateway));
            assert(self.layers.at(Layer::Internet) == after.layers.at(Layer::Internet));
            assert(self.layers.at(Layer::Dns) == after.layers.at(Layer::Dns));
            assert(self.layers.at(Layer::Host) == after.layers.at(Layer::Host));
            assert(self@.layers == after.layers);
            assert forall|l: Layer| (#[trigger] self@.layers.at(l)) is Some <==> has_layer(
                self@.cfg.targets@,
                l,
            ) by {
                assert(before.layers.at(l) is Some <==> has_layer(before.cfg.targets@, l));
            }
            assert forall|l: Layer|
                l != Layer::Internet && (#[trigger] self@.layers.at(l)) is Some implies self@.layers.at(
                l,
            )->Some_0.status != Status::Degraded by {
                assert(before.layers.at(l) is Some);
                assert(self@.layers.at(l) == before.layer_after(l, cur, ts, mono));
            }
            assert forall|i: int| 0 <= i < self@.targets.len() implies (
            #[trigger] self@.targets[i]).window.len() <= self@.cfg.window_samples
                || self@.targets[i].window.len() <= 1 by {
                assert(self@.targets[i].window == probed[i].window);
            }
        }
        events
    }
}

impl Engine {
    fn snap_targets(&self, layer: Layer) -> (r: Vec<TargetSnap>)
        requires
            self@.well_formed(),
        ensures
            r@.map_values(|t: TargetSnap| t@) == self@.target_snaps(
                layer,
                self@.targets.len() as int,
            ),
    {
        let mut r: Vec<TargetSnap> = Vec::new();
        let mut i: usize = 0;
        assert(r@.map_values(|t: TargetSnap| t@) =~= self@.target_snaps(layer, 0));
        while i < self.tstates.len()
            invariant
                i <= self.tstates@.len(),
                self@.well_formed(),
                r@.map_values(|t: TargetSnap| t@) == self@.target_snaps(layer, i as int),
            decreases self.tstates@.len() - i,
        {
            assert(self@.targets[i as int] == self.tstates@[i as int]@);
            if self.cfg.targets[i].layer == layer {
                r.push(
                    TargetSnap {
                        name: self.cfg.targets[i].name.clone(),
                        up: self.tstates[i].is_up(),
                        last_ms: self.tstates[i].last_ms(),
                        loss_pct: self.tstates[i].loss_pct(),
                    },
                );
            }
            i = i + 1;
            assert(r@.map_values(|t: TargetSnap| t@) =~= self@.target_snaps(layer, i as int));
        }
        r
    }

    fn snap_layer(&self, layer: Layer, snaps: &mut Vec<LayerSnap>)
        requires
            self@.well_formed(),
        ensures
            layer_snaps_of(final(snaps)@) == layer_snaps_of(old(snaps)@) + self@.layer_snap(layer),
    {
        if let (Some(ls), Some(agg)) = (self.layers.get(layer), self.aggs.get(layer)) {
            snaps.push(
                LayerSnap {
                    layer,
                    label: layer.label(),
                    status: ls.status,
                    since: ls.since,
                    loss_pct: agg.loss_pct,
                    latency_ms: agg.latency_ms,
                    targets: self.snap_targets(layer),
                },
            );
        }
        assert(layer_snaps_of(snaps@) =~= layer_snaps_of(old(snaps)@) + self@.layer_snap(layer));
    }

    fn current_status(&self, layer: Layer) -> (r: Option<Status>)
        ensures
            r == self@.current().at(layer),
    {
        match self.layers.get(layer) {
            Some(ls) => Some(ls.status),
            None => None,
        }
    }

    /// The current state as the web UI sees it. Call after `evaluate`.
    pub fn snapshot(&self, ts: u64) -> (r: Snapshot)
        requires
            self@.well_formed(),
        ensures
            r.updated == ts,
            r.interval_secs == self@.cfg.interval_secs,
            r.verdict@ == verdict_text(self@.current(), self@.aggs.internet),
            r.verdict_status == verdict_on(self@.current()),
            layer_snaps_of(r.layers@) == self@.layer_snaps(),
    {
        let mut snaps: Vec<LayerSnap> = Vec::new();
        assert(layer_snaps_of(snaps@) =~= Seq::<LayerSnapModel>::empty());
        self.snap_layer(Layer::Lan, &mut snaps);
        self.snap_layer(Layer::Gateway, &mut snaps);
        self.snap_layer(Layer::Internet, &mut snaps);
        self.snap_layer(Layer::Dns, &mut snaps);
        self.snap_layer(Layer::Host, &mut snaps);
        assert(layer_snaps_of(snaps@) =~= self@.layer_snaps());
        let cur: LayerMap<Status> = LayerMap {
            lan: self.current_status(Layer::Lan),
            gateway: self.current_status(Layer::Gateway),
            internet: self.current_status(Layer::Internet),
            dns: self.current_status(Layer::Dns),
            host: self.current_status(Layer::Host),
        };
        let (verdict, verdict_status): (String, Status) = make_verdict(&cur, &self.aggs);
        Snapshot {
            updated: ts,
            interval_secs: self.cfg.interval_secs,
            verdict,
            verdict_status,
            layers: snaps,
        }
    }
}

} // verus!
