//! What holds of every cycle of the engine, whatever the probes found.

use crate::binary64::{
    by_rank, percentages_stay_within_a_hundred, rank_is_injective, Binary64, IMPLICIT,
};
use crate::config::Config;
use crate::engine::EngineModel;
use crate::events::{kinds_are_distinct, listed, outage_message, EventModel};
use crate::hosts::host_event;
use crate::ladder::{down_event, still_down_event};
use crate::layer::{implied, implied_unfolds, is_down, Layer, LayerMap, Status};
use crate::probes::ProbeResult;
use crate::snapshot::{verdict_on, verdict_text};
use crate::status::{
    aggregates, any_up, has_layer, least_loss, least_median, status_of,
    statuses, LayerAgg,
};
use crate::target::TargetModel;
use vstd::prelude::*;
use vstd::relations::*;

verus! {

impl EngineModel {
    /// Whether an event of the cycle tells that a ladder layer changed.
    pub open spec fn is_change(
        self,
        ts: u64,
        mono: u64,
        results: Seq<ProbeResult>,
        layer: Layer,
        e: EventModel,
    ) -> bool {
        layer != Layer::Host && self.layer_event(
            layer,
            self.statuses_after(ts, mono, results),
            aggregates(self.cfg, self.probed(ts, mono, results)),
            ts,
            mono,
        ) == Some(e)
    }

    /// Whether an event of the cycle announces an overdue outage of a ladder
    /// layer.
    pub open spec fn is_overdue(
        self,
        ts: u64,
        mono: u64,
        results: Seq<ProbeResult>,
        layer: Layer,
        e: EventModel,
    ) -> bool {
        layer != Layer::Host && self.layer_catch_up(
            layer,
            self.statuses_after(ts, mono, results),
            ts,
            mono,
        ) == Some(e)
    }

    /// Whether an event of the cycle is that of the target at `i`, a host.
    pub open spec fn is_of_host(
        self,
        ts: u64,
        mono: u64,
        results: Seq<ProbeResult>,
        i: int,
        e: EventModel,
    ) -> bool {
        let t = self.cfg.targets@[i];
        0 <= i < self.targets.len() && t.layer == Layer::Host && host_event(
            t,
            self.targets[i].up,
            self.probed(ts, mono, results)[i],
            implied(Layer::Host, self.statuses_after(ts, mono, results)),
            ts,
            mono,
        ) == Some(e)
    }
}

proof fn host_events_are_of_hosts(
    m: EngineModel,
    probed: Seq<TargetModel>,
    lan_down: bool,
    ts: u64,
    mono: u64,
    n: int,
    k: int,
) -> (i: int)
    requires
        0 <= k < m.host_events(probed, lan_down, ts, mono, n).len(),
    ensures
        0 <= i < n,
        m.cfg.targets@[i].layer == Layer::Host,
        host_event(m.cfg.targets@[i], m.targets[i].up, probed[i], lan_down, ts, mono) == Some(
            m.host_events(probed, lan_down, ts, mono, n)[k],
        ),
    decreases n,
{
    if n <= 0 {
        0
    } else {
        let rest = m.host_events(probed, lan_down, ts, mono, n - 1);
        if k < rest.len() {
            host_events_are_of_hosts(m, probed, lan_down, ts, mono, n - 1, k)
        } else {
            n - 1
        }
    }
}

proof fn host_events_hold_each(
    m: EngineModel,
    probed: Seq<TargetModel>,
    lan_down: bool,
    ts: u64,
    mono: u64,
    n: int,
    i: int,
)
    requires
        0 <= i < n,
        m.cfg.targets@[i].layer == Layer::Host,
    ensures
        match host_event(m.cfg.targets@[i], m.targets[i].up, probed[i], lan_down, ts, mono) {
            Some(e) => m.host_events(probed, lan_down, ts, mono, n).contains(e),
            None => true,
        },
    decreases n,
{
    let rest = m.host_events(probed, lan_down, ts, mono, n - 1);
    let all = m.host_events(probed, lan_down, ts, mono, n);
    let event = host_event(m.cfg.targets@[i], m.targets[i].up, probed[i], lan_down, ts, mono);
    if event is Some {
        if i < n - 1 {
            host_events_hold_each(m, probed, lan_down, ts, mono, n - 1, i);
            let k = choose|k: int| 0 <= k < rest.len() && rest[k] == event->Some_0;
            assert(all[k] == event->Some_0);
        } else {
            assert(all[rest.len() as int] == event->Some_0);
        }
    }
}

/// Every event of a cycle tells that a ladder layer changed, announces an
/// overdue outage of one, or is that of a host.
pub proof fn events_have_a_source(
    m: EngineModel,
    ts: u64,
    mono: u64,
    results: Seq<ProbeResult>,
    e: EventModel,
)
    requires
        m.events(ts, mono, results).contains(e),
    ensures
        ({
            ||| exists|l: Layer| m.is_change(ts, mono, results, l, e)
            ||| exists|l: Layer| m.is_overdue(ts, mono, results, l, e)
            ||| exists|i: int| m.is_of_host(ts, mono, results, i, e)
        }),
{
    let probed = m.probed(ts, mono, results);
    let cur = statuses(m.cfg, probed);
    let aggs = aggregates(m.cfg, probed);
    let changes = m.change_events(cur, aggs, ts, mono);
    let overdue = m.overdue_events(cur, ts, mono);
    let lan_down = implied(Layer::Host, cur);
    let hosts = m.host_events(probed, lan_down, ts, mono, probed.len() as int);
    let events = m.events(ts, mono, results);
    let k = choose|k: int| 0 <= k < events.len() && events[k] == e;
    if k < changes.len() {
        assert(changes[k] == e);
        let c1 = listed(m.layer_event(Layer::Lan, cur, aggs, ts, mono));
        let c2 = listed(m.layer_event(Layer::Gateway, cur, aggs, ts, mono));
        let c3 = listed(m.layer_event(Layer::Internet, cur, aggs, ts, mono));
        if k < c1.len() {
            assert(m.is_change(ts, mono, results, Layer::Lan, e));
        } else if k < c1.len() + c2.len() {
            assert(m.is_change(ts, mono, results, Layer::Gateway, e));
        } else if k < c1.len() + c2.len() + c3.len() {
            assert(m.is_change(ts, mono, results, Layer::Internet, e));
        } else {
            assert(m.is_change(ts, mono, results, Layer::Dns, e));
        }
    } else if k < changes.len() + overdue.len() {
        let j = k - changes.len();
        assert(overdue[j] == e);
        let c1 = listed(m.layer_catch_up(Layer::Lan, cur, ts, mono));
        let c2 = listed(m.layer_catch_up(Layer::Gateway, cur, ts, mono));
        let c3 = listed(m.layer_catch_up(Layer::Internet, cur, ts, mono));
        if j < c1.len() {
            assert(m.is_overdue(ts, mono, results, Layer::Lan, e));
        } else if j < c1.len() + c2.len() {
            assert(m.is_overdue(ts, mono, results, Layer::Gateway, e));
        } else if j < c1.len() + c2.len() + c3.len() {
            assert(m.is_overdue(ts, mono, results, Layer::Internet, e));
        } else {
            assert(m.is_overdue(ts, mono, results, Layer::Dns, e));
        }
    } else {
        let j = k - changes.len() - overdue.len();
        assert(hosts[j] == e);
        let i = host_events_are_of_hosts(
            m,
            probed,
            lan_down,
            ts,
            mono,
            probed.len() as int,
            j,
        );
        assert(m.is_of_host(ts, mono, results, i, e));
    }
}

/// Every change of a ladder layer, every overdue outage of one and every event
/// of a host is among the events of the cycle.
pub proof fn sources_have_their_event(
    m: EngineModel,
    ts: u64,
    mono: u64,
    results: Seq<ProbeResult>,
    e: EventModel,
)
    requires
        ({
            ||| exists|l: Layer| m.is_change(ts, mono, results, l, e)
            ||| exists|l: Layer| m.is_overdue(ts, mono, results, l, e)
            ||| exists|i: int| m.is_of_host(ts, mono, results, i, e)
        }),
    ensures
        m.events(ts, mono, results).contains(e),
{
    let probed = m.probed(ts, mono, results);
    let cur = statuses(m.cfg, probed);
    let aggs = aggregates(m.cfg, probed);
    let changes = m.change_events(cur, aggs, ts, mono);
    let overdue = m.overdue_events(cur, ts, mono);
    let lan_down = implied(Layer::Host, cur);
    let hosts = m.host_events(probed, lan_down, ts, mono, probed.len() as int);
    let events = m.events(ts, mono, results);
    if exists|l: Layer| m.is_change(ts, mono, results, l, e) {
        let l = choose|l: Layer| m.is_change(ts, mono, results, l, e);
        let c1 = listed(m.layer_event(Layer::Lan, cur, aggs, ts, mono));
        let c2 = listed(m.layer_event(Layer::Gateway, cur, aggs, ts, mono));
        let c3 = listed(m.layer_event(Layer::Internet, cur, aggs, ts, mono));
        let k: int = match l {
            Layer::Lan => 0,
            Layer::Gateway => c1.len() as int,
            Layer::Internet => (c1.len() + c2.len()) as int,
            _ => (c1.len() + c2.len() + c3.len()) as int,
        };
        assert(changes[k] == e);
        assert(events[k] == e);
    } else if exists|l: Layer| m.is_overdue(ts, mono, results, l, e) {
        let l = choose|l: Layer| m.is_overdue(ts, mono, results, l, e);
        let c1 = listed(m.layer_catch_up(Layer::Lan, cur, ts, mono));
        let c2 = listed(m.layer_catch_up(Layer::Gateway, cur, ts, mono));
        let c3 = listed(m.layer_catch_up(Layer::Internet, cur, ts, mono));
        let k: int = match l {
            Layer::Lan => 0,
            Layer::Gateway => c1.len() as int,
            Layer::Internet => (c1.len() + c2.len()) as int,
            _ => (c1.len() + c2.len() + c3.len()) as int,
        };
        assert(overdue[k] == e);
        assert(events[changes.len() + k] == e);
    } else {
        let i = choose|i: int| m.is_of_host(ts, mono, results, i, e);
        host_events_hold_each(m, probed, lan_down, ts, mono, probed.len() as int, i);
        let k = choose|k: int| 0 <= k < hosts.len() && hosts[k] == e;
        assert(events[changes.len() + overdue.len() + k] == e);
    }
}

/// When a lower layer is down, alerts for the layers above it are suppressed
/// because they are implied: no outage, recovery, degradation or return to
/// normal of a layer is announced then, nor the outage or recovery of a host
/// while the LAN is down.
pub proof fn implied_alerts_are_suppressed(
    m: EngineModel,
    ts: u64,
    mono: u64,
    results: Seq<ProbeResult>,
    e: EventModel,
)
    requires
        m.events(ts, mono, results).contains(e),
        e.notify,
    ensures
        e.target is None ==> !implied(e.layer, m.statuses_after(ts, mono, results)),
        e.target is Some ==> !is_down(Layer::Lan, m.statuses_after(ts, mono, results)),
{
    events_have_a_source(m, ts, mono, results, e);
    implied_unfolds(m.statuses_after(ts, mono, results));
}

/// What is suppressed is still recorded: a ladder layer that goes down always
/// has its "down" event, and the event is announced unless a lower layer's
/// outage implies it.
pub proof fn outages_are_recorded(
    m: EngineModel,
    ts: u64,
    mono: u64,
    results: Seq<ProbeResult>,
    layer: Layer,
)
    requires
        layer != Layer::Host,
        m.layers.at(layer) is Some,
        m.layers.at(layer)->Some_0.status != Status::Down,
        is_down(layer, m.statuses_after(ts, mono, results)),
    ensures
        ({
            let cur = m.statuses_after(ts, mono, results);
            let e = down_event(layer, cur);
            m.events(ts, mono, results).contains(e) && e.notify == !implied(layer, cur)
        }),
{
    let cur = m.statuses_after(ts, mono, results);
    assert(m.is_change(ts, mono, results, layer, down_event(layer, cur)));
    sources_have_their_event(m, ts, mono, results, down_event(layer, cur));
}

/// An outage is on record once: a layer or a host that was down before a cycle,
/// also by resuming, has no "down" event in it.
pub proof fn outages_begin_once(
    m: EngineModel,
    ts: u64,
    mono: u64,
    results: Seq<ProbeResult>,
    e: EventModel,
)
    requires
        m.events(ts, mono, results).contains(e),
        e.kind == "down"@,
    ensures
        e.target is None ==> m.layers.at(e.layer) is Some && m.layers.at(e.layer)->Some_0.status
            != Status::Down && m.statuses_after(ts, mono, results).at(e.layer)->Some_0
            == Status::Down,
        e.target is Some ==> exists|i: int|
            0 <= i < m.targets.len() && #[trigger] m.is_of_host(ts, mono, results, i, e)
                && m.targets[i].up && !m.after(ts, mono, results).targets[i].up,
{
    kinds_are_distinct();
    events_have_a_source(m, ts, mono, results, e);
    if e.target is Some {
        let i = choose|i: int| m.is_of_host(ts, mono, results, i, e);
        assert(m.is_of_host(ts, mono, results, i, e));
        assert(m.targets[i].up && !m.after(ts, mono, results).targets[i].up);
    }
}

/// Only the internet is ever degraded, and only it has events that say so.
pub proof fn only_the_internet_degrades(
    m: EngineModel,
    ts: u64,
    mono: u64,
    results: Seq<ProbeResult>,
    e: EventModel,
)
    requires
        m.well_formed(),
        m.events(ts, mono, results).contains(e),
        e.kind == "degraded"@ || e.kind == "degraded_end"@,
    ensures
        e.layer == Layer::Internet,
        e.target is None,
{
    kinds_are_distinct();
    events_have_a_source(m, ts, mono, results, e);
    let l = choose|l: Layer| m.is_change(ts, mono, results, l, e);
    assert(m.is_change(ts, mono, results, l, e));
    assert(m.layers.at(l) is Some);
    assert(has_layer(m.cfg.targets@, l));
}

/// If the lower layers recover while a higher one stays down, the overdue alert
/// fires then.
pub proof fn overdue_alerts_fire(
    m: EngineModel,
    ts: u64,
    mono: u64,
    results: Seq<ProbeResult>,
    layer: Layer,
)
    requires
        layer != Layer::Host,
        m.layers.at(layer) is Some,
        m.layers.at(layer)->Some_0.status == Status::Down,
        !m.layers.at(layer)->Some_0.notified_down,
        is_down(layer, m.statuses_after(ts, mono, results)),
        !implied(layer, m.statuses_after(ts, mono, results)),
    ensures
        ({
            let e = still_down_event(
                layer,
                m.statuses_after(ts, mono, results),
                m.layers.at(layer)->Some_0.lasted(ts, mono),
            );
            m.events(ts, mono, results).contains(e) && e.notify
        }),
{
    let e = still_down_event(
        layer,
        m.statuses_after(ts, mono, results),
        m.layers.at(layer)->Some_0.lasted(ts, mono),
    );
    assert(m.is_overdue(ts, mono, results, layer, e));
    sources_have_their_event(m, ts, mono, results, e);
}

/// After every cycle, each outage that stands on its own has been announced:
/// that of a ladder layer with no outage below it, and that of an alerting host
/// while the LAN is up.
pub proof fn standing_outages_are_announced(
    m: EngineModel,
    ts: u64,
    mono: u64,
    results: Seq<ProbeResult>,
)
    requires
        m.well_formed(),
    ensures
        forall|l: Layer|
            l != Layer::Host && is_down(l, m.statuses_after(ts, mono, results)) && !implied(
                l,
                m.statuses_after(ts, mono, results),
            ) ==> (#[trigger] m.after(ts, mono, results).layers.at(l)) is Some && m.after(
                ts,
                mono,
                results,
            ).layers.at(l)->Some_0.notified_down,
        forall|i: int|
            0 <= i < m.targets.len() && m.cfg.targets@[i].layer == Layer::Host
                && m.cfg.targets@[i].alert && !is_down(
                Layer::Lan,
                m.statuses_after(ts, mono, results),
            ) && !(#[trigger] m.after(ts, mono, results).targets[i]).up ==> m.after(
                ts,
                mono,
                results,
            ).targets[i].notified_down,
{
    let cur = m.statuses_after(ts, mono, results);
    implied_unfolds(cur);
    assert forall|l: Layer|
        l != Layer::Host && is_down(l, cur) && !implied(l, cur) implies (#[trigger] m.after(
        ts,
        mono,
        results,
    ).layers.at(l)) is Some && m.after(ts, mono, results).layers.at(l)->Some_0.notified_down by {
        assert(has_layer(m.cfg.targets@, l));
        assert(m.layers.at(l) is Some);
        assert(m.after(ts, mono, results).layers.at(l) == m.layer_after(l, cur, ts, mono));
    }
}

/// The engine's record of each layer agrees with how the layer is judged.
pub proof fn layers_follow_their_targets(
    m: EngineModel,
    ts: u64,
    mono: u64,
    results: Seq<ProbeResult>,
)
    requires
        m.well_formed(),
    ensures
        m.after(ts, mono, results).current() == m.statuses_after(ts, mono, results),
{
    let cur = m.statuses_after(ts, mono, results);
    let after = m.after(ts, mono, results);
    assert forall|l: Layer| #[trigger] after.current().at(l) == cur.at(l) by {
        assert(m.layers.at(l) is Some <==> has_layer(m.cfg.targets@, l));
        assert(after.layers.at(l) == m.layer_after(l, cur, ts, mono));
    }
    assert(after.current().at(Layer::Lan) == cur.at(Layer::Lan));
    assert(after.current().at(Layer::Gateway) == cur.at(Layer::Gateway));
    assert(after.current().at(Layer::Internet) == cur.at(Layer::Internet));
    assert(after.current().at(Layer::Dns) == cur.at(Layer::Dns));
    assert(after.current().at(Layer::Host) == cur.at(Layer::Host));
}

/// Every failure is blamed on the right layer. Internet down while the gateway
/// answers: the uplink is at fault, and both the alert and the verdict say so.
/// With the gateway down it is the gateway, and with the LAN down there is no
/// judging the uplink.
pub proof fn the_lowest_layer_at_fault_is_blamed(cur: LayerMap<Status>, agg: Option<LayerAgg>)
    requires
        is_down(Layer::Internet, cur),
    ensures
        verdict_on(cur) == Status::Down,
        is_down(Layer::Lan, cur) ==> verdict_text(cur, agg)
            == "Pi is cut off from the LAN - can't judge the uplink"@ && !down_event(
            Layer::Internet,
            cur,
        ).notify,
        !is_down(Layer::Lan, cur) && is_down(Layer::Gateway, cur) ==> verdict_text(cur, agg)
            == "OUTAGE - WAN gateway unreachable"@ && !down_event(Layer::Internet, cur).notify,
        !is_down(Layer::Lan, cur) && !is_down(Layer::Gateway, cur) ==> verdict_text(cur, agg)
            == "UPLINK OUTAGE - gateway reachable, uplink down"@ && down_event(
            Layer::Internet,
            cur,
        ).notify,
        cur.gateway is Some && !is_down(Layer::Gateway, cur) ==> down_event(
            Layer::Internet,
            cur,
        ).message
            == "Internet is unreachable but the WAN gateway still responds - the uplink is down."@,
        is_down(Layer::Gateway, cur) ==> down_event(Layer::Internet, cur).message
            == "Internet is unreachable and the WAN gateway isn't answering either - the gateway may be offline or rebooting."@,
{
    implied_unfolds(cur);
}

/// Whether something was measured, and as a number below the threshold.
pub open spec fn below(measured: Option<Binary64>, threshold: Binary64) -> bool {
    match measured {
        Some(m) => threshold.at_least(m) && !m.at_least(threshold),
        None => false,
    }
}

proof fn the_least_is_below(
    cfg: Config,
    states: Seq<TargetModel>,
    layer: Layer,
    i: int,
    n: int,
)
    requires
        0 <= i < n,
        cfg.targets@[i].layer == layer,
    ensures
        below(states[i].loss(), cfg.degraded.loss_pct) ==> below(
            least_loss(cfg.targets@, states, layer, n),
            cfg.degraded.loss_pct,
        ),
        below(states[i].median(), cfg.degraded.latency_ms) ==> below(
            least_median(cfg.targets@, states, layer, n),
            cfg.degraded.latency_ms,
        ),
    decreases n,
{
    if i < n - 1 {
        the_least_is_below(cfg, states, layer, i, n - 1);
    }
}

/// Only a problem on the shared path hurts every anchor at once, so one anchor
/// having a bad day never raises a false alarm: while one internet target is up
/// with loss and latency below their thresholds, the internet is up.
pub proof fn one_good_anchor_suffices(cfg: Config, states: Seq<TargetModel>, i: int)
    requires
        0 <= i < cfg.targets@.len(),
        cfg.targets@[i].layer == Layer::Internet,
        states[i].up,
        below(states[i].loss(), cfg.degraded.loss_pct),
        below(states[i].median(), cfg.degraded.latency_ms),
    ensures
        status_of(cfg, states, Layer::Internet) == Status::Up,
{
    the_least_is_below(cfg, states, Layer::Internet, i, cfg.targets@.len() as int);
}

/// A layer of the ladder is down only if every one of its targets is.
pub proof fn one_answering_target_keeps_a_layer_up(
    cfg: Config,
    states: Seq<TargetModel>,
    layer: Layer,
    i: int,
)
    requires
        layer != Layer::Host,
        0 <= i < cfg.targets@.len(),
        cfg.targets@[i].layer == layer,
        states[i].up,
    ensures
        status_of(cfg, states, layer) != Status::Down,
{
}

/// A target that has just recovered has its outage wiped from its window: no
/// loss is read from it, so its recovery is not mistaken for a degradation.
pub proof fn recovery_wipes_the_window(
    t: TargetModel,
    res: ProbeResult,
    cfg: Config,
    ts: u64,
    mono: u64,
)
    requires
        !t.up,
        t.probed(res, cfg, ts, mono).up,
    ensures
        t.probed(res, cfg, ts, mono).window == (match res.latency_ms {
            Some(ms) => seq![Some(ms)],
            None => Seq::empty(),
        }),
        t.probed(res, cfg, ts, mono).loss() is None,
        t.probed(res, cfg, ts, mono).last() == res.latency_ms,
{
}

/// A loss is a percentage, from zero to one hundred.
pub proof fn losses_are_percentages(t: TargetModel)
    requires
        t.window.len() < 2 * IMPLICIT,
        t.loss() is Some,
    ensures
        t.loss()->Some_0.finite(),
        !t.loss()->Some_0.negative(),
        (Binary64 { bits: 0x4059_0000_0000_0000 }).at_least(t.loss()->Some_0),
{
    t.window.lemma_filter_len(|s: Option<Binary64>| s is None);
    percentages_stay_within_a_hundred(t.failures(), t.window.len());
}

/// The median is the latency of a probe in the window: with the latencies in
/// order, half of them (rounded down) stand before it and rank no higher, and
/// those after it rank no lower.
pub proof fn the_median_was_measured(t: TargetModel)
    requires
        t.median() is Some,
    ensures
        t.latencies().contains(t.median()->Some_0),
        ({
            let sorted = t.latencies().sort_by(by_rank());
            let middle = (sorted.len() / 2) as int;
            &&& sorted.to_multiset() == t.latencies().to_multiset()
            &&& sorted[middle] == t.median()->Some_0
            &&& forall|i: int|
                0 <= i < middle ==> (#[trigger] sorted[i]).rank() <= t.median()->Some_0.rank()
            &&& forall|i: int|
                middle <= i < sorted.len() ==> t.median()->Some_0.rank() <= (
                #[trigger] sorted[i]).rank()
        }),
{
    broadcast use vstd::seq_lib::group_to_multiset_ensures;

    let ok = t.latencies();
    let sorted = ok.sort_by(by_rank());
    let middle = (sorted.len() / 2) as int;
    assert(antisymmetric(by_rank())) by {
        assert forall|a: Binary64, b: Binary64|
            #[trigger] by_rank()(a, b) && #[trigger] by_rank()(b, a) implies a == b by {
            rank_is_injective(a, b);
        }
    }
    ok.lemma_sort_by_ensures(by_rank());
    assert(sorted.len() == ok.len()) by {
        assert(sorted.to_multiset().len() == sorted.len());
        assert(ok.to_multiset().len() == ok.len());
    }
    assert(sorted.contains(sorted[middle]));
    assert forall|i: int| 0 <= i < middle implies (#[trigger] sorted[i]).rank()
        <= sorted[middle].rank() by {
        assert(by_rank()(sorted[i], sorted[middle]));
    }
    assert forall|i: int| middle <= i < sorted.len() implies sorted[middle].rank() <= (
    #[trigger] sorted[i]).rank() by {
        if i > middle {
            assert(by_rank()(sorted[middle], sorted[i]));
        }
    }
}

/// Hosts whose alerts are switched off are recorded but never announced: no
/// event of such a host is to be notified, and it stays unannounced.
pub proof fn silent_hosts_stay_silent(
    m: EngineModel,
    ts: u64,
    mono: u64,
    results: Seq<ProbeResult>,
    i: int,
    e: EventModel,
)
    requires
        0 <= i < m.targets.len(),
        m.cfg.targets@[i].layer == Layer::Host,
        !m.cfg.targets@[i].alert,
        !m.targets[i].notified_down,
    ensures
        m.is_of_host(ts, mono, results, i, e) ==> !e.notify,
        !m.after(ts, mono, results).targets[i].notified_down,
{
}

proof fn ladder_measures_ignore_hosts(
    cfg: Config,
    a: Seq<TargetModel>,
    b: Seq<TargetModel>,
    layer: Layer,
    n: int,
)
    requires
        layer != Layer::Host,
        n <= cfg.targets@.len(),
        forall|i: int|
            0 <= i < cfg.targets@.len() && (#[trigger] cfg.targets@[i]).layer != Layer::Host
                ==> a[i] == b[i],
    ensures
        least_loss(cfg.targets@, a, layer, n) == least_loss(cfg.targets@, b, layer, n),
        least_median(cfg.targets@, a, layer, n) == least_median(cfg.targets@, b, layer, n),
    decreases n,
{
    if n > 0 {
        ladder_measures_ignore_hosts(cfg, a, b, layer, n - 1);
        assert(cfg.targets@[n - 1].layer != Layer::Host ==> a[n - 1] == b[n - 1]);
    }
}

/// The ladder is judged and measured alike wherever the targets that are not
/// hosts agree.
proof fn ladder_judgements_ignore_hosts(
    cfg: Config,
    a: Seq<TargetModel>,
    b: Seq<TargetModel>,
    layer: Layer,
)
    requires
        layer != Layer::Host,
        forall|i: int|
            0 <= i < cfg.targets@.len() && (#[trigger] cfg.targets@[i]).layer != Layer::Host
                ==> a[i] == b[i],
    ensures
        statuses(cfg, a).at(layer) == statuses(cfg, b).at(layer),
        aggregates(cfg, a).at(layer) == aggregates(cfg, b).at(layer),
{
    let targets = cfg.targets@;
    ladder_measures_ignore_hosts(cfg, a, b, layer, targets.len() as int);
    assert(any_up(targets, a, layer) == any_up(targets, b, layer)) by {
        assert forall|i: int|
            0 <= i < targets.len() && (#[trigger] targets[i]).layer == layer implies a[i].up
            == b[i].up by {}
    }
}

/// A ladder layer fares alike under judgements that agree on the ladder.
proof fn ladder_steps_ignore_hosts(
    m: EngineModel,
    ca: LayerMap<Status>,
    cb: LayerMap<Status>,
    aa: LayerMap<LayerAgg>,
    ab: LayerMap<LayerAgg>,
    ts: u64,
    mono: u64,
    layer: Layer,
)
    requires
        layer != Layer::Host,
        ca.lan == cb.lan,
        ca.gateway == cb.gateway,
        ca.internet == cb.internet,
        ca.dns == cb.dns,
        aa.at(layer) == ab.at(layer),
    ensures
        m.layer_event(layer, ca, aa, ts, mono) == m.layer_event(layer, cb, ab, ts, mono),
        m.layer_catch_up(layer, ca, ts, mono) == m.layer_catch_up(layer, cb, ts, mono),
        m.layer_after(layer, ca, ts, mono) == m.layer_after(layer, cb, ts, mono),
{
    implied_unfolds(ca);
    implied_unfolds(cb);
    assert(implied(layer, ca) == implied(layer, cb));
    assert(outage_message(layer, ca) == outage_message(layer, cb));
    assert(ca.at(layer) == cb.at(layer));
}

/// Watched hosts never pollute what is said of the internet. Whatever they
/// answer, the ladder has the same statuses, measurements, events and verdict.
pub proof fn hosts_never_touch_the_ladder(
    m: EngineModel,
    ts: u64,
    mono: u64,
    results: Seq<ProbeResult>,
    others: Seq<ProbeResult>,
    layer: Layer,
)
    requires
        m.well_formed(),
        results.len() == m.targets.len(),
        others.len() == m.targets.len(),
        forall|i: int|
            0 <= i < m.targets.len() && (#[trigger] m.cfg.targets@[i]).layer != Layer::Host
                ==> results[i] == others[i],
        layer != Layer::Host,
    ensures
        m.statuses_after(ts, mono, results).at(layer) == m.statuses_after(ts, mono, others).at(
            layer,
        ),
        m.after(ts, mono, results).aggs.at(layer) == m.after(ts, mono, others).aggs.at(layer),
        m.after(ts, mono, results).layers.at(layer) == m.after(ts, mono, others).layers.at(layer),
        forall|e: EventModel|
            #![trigger m.is_change(ts, mono, results, layer, e)]
            m.is_change(ts, mono, results, layer, e) == m.is_change(ts, mono, others, layer, e),
        forall|e: EventModel|
            #![trigger m.is_overdue(ts, mono, results, layer, e)]
            m.is_overdue(ts, mono, results, layer, e) == m.is_overdue(ts, mono, others, layer, e),
        verdict_on(m.statuses_after(ts, mono, results)) == verdict_on(
            m.statuses_after(ts, mono, others),
        ),
        verdict_text(
            m.statuses_after(ts, mono, results),
            m.after(ts, mono, results).aggs.internet,
        ) == verdict_text(
            m.statuses_after(ts, mono, others),
            m.after(ts, mono, others).aggs.internet,
        ),
{
    let a = m.probed(ts, mono, results);
    let b = m.probed(ts, mono, others);
    let ca = m.statuses_after(ts, mono, results);
    let cb = m.statuses_after(ts, mono, others);
    let aa = aggregates(m.cfg, a);
    let ab = aggregates(m.cfg, b);
    assert forall|i: int|
        0 <= i < m.cfg.targets@.len() && (#[trigger] m.cfg.targets@[i]).layer
            != Layer::Host implies a[i] == b[i] by {}
    ladder_judgements_ignore_hosts(m.cfg, a, b, Layer::Lan);
    ladder_judgements_ignore_hosts(m.cfg, a, b, Layer::Gateway);
    ladder_judgements_ignore_hosts(m.cfg, a, b, Layer::Internet);
    ladder_judgements_ignore_hosts(m.cfg, a, b, Layer::Dns);
    assert(ca.at(Layer::Lan) == cb.at(Layer::Lan));
    assert(ca.at(Layer::Gateway) == cb.at(Layer::Gateway));
    assert(ca.at(Layer::Internet) == cb.at(Layer::Internet));
    assert(ca.at(Layer::Dns) == cb.at(Layer::Dns));
    assert(aa.at(Layer::Internet) == ab.at(Layer::Internet));
    assert(aa.at(layer) == ab.at(layer));
    ladder_steps_ignore_hosts(m, ca, cb, aa, ab, ts, mono, layer);
}

} // verus!
