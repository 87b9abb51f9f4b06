//! What the events of a cycle tell, field by field, in terms of the state before
//! the cycle and after it.

use crate::engine::EngineModel;
use crate::events::{duration_text, kinds_are_distinct, listed, EventModel};
use crate::hosts::host_event;
use crate::ladder::LayerState;
use crate::laws::{events_have_a_source, sources_have_their_event};
use crate::layer::{implied, implied_unfolds, Layer, LayerMap, Status};
use crate::probes::ProbeResult;
use crate::status::{aggregates, has_layer, statuses, LayerAgg};
use crate::target::TargetModel;
use vstd::prelude::*;

verus! {

/// Whether a layer that the given one depends on is down.
pub open spec fn cut_off(layer: Layer, cur: LayerMap<Status>) -> bool {
    match layer {
        Layer::Lan => false,
        Layer::Gateway => cur.lan == Some(Status::Down),
        Layer::Internet => cur.lan == Some(Status::Down) || cur.gateway == Some(Status::Down),
        Layer::Dns => cur.lan == Some(Status::Down) || cur.gateway == Some(Status::Down)
            || cur.internet == Some(Status::Down),
        Layer::Host => cur.lan == Some(Status::Down),
    }
}

/// An outage is implied just if a layer that the given one depends on is down.
pub proof fn outages_reach_upwards(layer: Layer, cur: LayerMap<Status>)
    ensures
        implied(layer, cur) == cut_off(layer, cur),
{
    implied_unfolds(cur);
}

/// Whether `secs` is how long something has lasted: whole seconds by the clock
/// that cannot be set if it was seen to begin, seconds by the other clock
/// otherwise; nothing if it is yet to begin or its start is not known.
pub open spec fn timed(
    since: Option<u64>,
    since_mono: Option<u64>,
    ts: u64,
    mono: u64,
    secs: u64,
) -> bool {
    match (since_mono, since) {
        (Some(m), _) => if m <= mono {
            m + secs * 1_000_000_000 <= mono < m + (secs + 1) * 1_000_000_000
        } else {
            secs == 0
        },
        (None, Some(s)) => if s <= ts {
            s + secs == ts
        } else {
            secs == 0
        },
        (None, None) => secs == 0,
    }
}

/// Whether a degradation may be announced: none was yet, or the last one is as
/// many minutes ago as are to lie between two.
pub open spec fn quiet_for(last: Option<u64>, mins: int, mono: u64) -> bool {
    match last {
        Some(t) => t + mins * 60_000_000_000 <= mono || mins == 0,
        None => true,
    }
}

/// What a layer remembers after its status has been judged anew: the status,
/// and since when if it changed; that its outage or degradation was announced
/// if it was, until the outage or degradation is over.
pub proof fn a_judgement_moves_a_layer(
    ls: LayerState,
    layer: Layer,
    m: EngineModel,
    cur: LayerMap<Status>,
    ts: u64,
    mono: u64,
)
    requires
        layer != Layer::Host,
        cur.at(layer) is Some,
    ensures
        ({
            let r = ls.moved(layer, m.cfg, cur, ts, mono);
            let new = cur.at(layer)->Some_0;
            let announced = quiet_for(
                ls.last_degraded_alert,
                m.cfg.degraded.cooldown_mins as int,
                mono,
            ) && !cut_off(layer, cur);
            &&& r.status == new
            &&& new == ls.status ==> r == ls
            &&& new != ls.status ==> r.since == ts && r.since_mono == Some(mono)
            &&& ls.status != Status::Down && new == Status::Down ==> r.notified_down == !cut_off(
                layer,
                cur,
            )
            &&& ls.status == Status::Down && new != Status::Down ==> !r.notified_down
            &&& ls.status != Status::Down && new != Status::Down ==> r.notified_down
                == ls.notified_down
            &&& ls.status == Status::Up && new == Status::Degraded ==> r.notified_degraded
                == announced
            &&& ls.status == Status::Degraded && new == Status::Up ==> !r.notified_degraded
            &&& new == Status::Down || ls.status == Status::Down ==> r.notified_degraded
                == ls.notified_degraded
            &&& ls.status == Status::Up && new == Status::Degraded && announced
                ==> r.last_degraded_alert == Some(mono)
            &&& !(ls.status == Status::Up && new == Status::Degraded && announced)
                ==> r.last_degraded_alert == ls.last_degraded_alert
        }),
{
    outages_reach_upwards(layer, cur);
}

/// How long a status has lasted is told by the clock that saw it begin.
pub proof fn statuses_are_timed(ls: LayerState, ts: u64, mono: u64)
    ensures
        timed(Some(ls.since), ls.since_mono, ts, mono, ls.lasted(ts, mono)),
{
}

/// A cycle leaves each layer with the status that its targets have given it.
pub proof fn a_cycle_settles_the_statuses(
    m: EngineModel,
    ts: u64,
    mono: u64,
    results: Seq<ProbeResult>,
)
    requires
        m.well_formed(),
    ensures
        m.after(ts, mono, results).current() == statuses(m.cfg, m.probed(ts, mono, results)),
        forall|l: Layer|
            (#[trigger] m.after(ts, mono, results).layers.at(l)) is Some <==> m.layers.at(
                l,
            ) is Some,
{
    let a = m.after(ts, mono, results);
    let cur = m.statuses_after(ts, mono, results);
    assert forall|l: Layer|
        (#[trigger] a.layers.at(l)) is Some == m.layers.at(l) is Some && a.current().at(l)
            == cur.at(l) by {
        assert(m.layers.at(l) is Some <==> has_layer(m.cfg.targets@, l));
        assert(a.layers.at(l) == m.layer_after(l, cur, ts, mono));
    }
    assert(a.current().at(Layer::Lan) == cur.at(Layer::Lan));
    assert(a.current().at(Layer::Gateway) == cur.at(Layer::Gateway));
    assert(a.current().at(Layer::Internet) == cur.at(Layer::Internet));
    assert(a.current().at(Layer::Dns) == cur.at(Layer::Dns));
    assert(a.current().at(Layer::Host) == cur.at(Layer::Host));
    assert(a.layers.at(Layer::Lan) is Some == m.layers.at(Layer::Lan) is Some);
}

/// What each layer remembers after a cycle. Of a ladder layer whose outage
/// stands on its own, the outage has been announced by the end of the cycle.
pub proof fn a_cycle_moves_the_layers(
    m: EngineModel,
    ts: u64,
    mono: u64,
    results: Seq<ProbeResult>,
    layer: Layer,
)
    requires
        m.well_formed(),
        m.layers.at(layer) is Some,
    ensures
        m.after(ts, mono, results).layers.at(layer) is Some,
        ({
            let before = m.layers.at(layer)->Some_0;
            let after = m.after(ts, mono, results).layers.at(layer)->Some_0;
            let cut = cut_off(layer, m.after(ts, mono, results).current());
            let announced = quiet_for(
                before.last_degraded_alert,
                m.cfg.degraded.cooldown_mins as int,
                mono,
            ) && !cut;
            &&& before.status == after.status ==> after.since == before.since && after.since_mono
                == before.since_mono
            &&& before.status != after.status ==> after.since == ts && after.since_mono == Some(
                mono,
            )
            &&& layer == Layer::Host ==> after.notified_down == before.notified_down
                && after.notified_degraded == before.notified_degraded
                && after.last_degraded_alert == before.last_degraded_alert
            &&& layer != Layer::Host && before.status != Status::Down && after.status
                == Status::Down ==> after.notified_down == !cut
            &&& layer != Layer::Host && before.status == Status::Down && after.status
                == Status::Down ==> after.notified_down == (before.notified_down || !cut)
            &&& layer != Layer::Host && before.status == Status::Down && after.status
                != Status::Down ==> !after.notified_down
            &&& layer != Layer::Host && before.status != Status::Down && after.status
                != Status::Down ==> after.notified_down == before.notified_down
            &&& layer != Layer::Host && before.status == Status::Up && after.status
                == Status::Degraded ==> after.notified_degraded == announced
                && after.last_degraded_alert == (if announced {
                Some(mono)
            } else {
                before.last_degraded_alert
            })
            &&& !(before.status == Status::Up && after.status == Status::Degraded)
                ==> after.last_degraded_alert == before.last_degraded_alert
        }),
{
    a_cycle_settles_the_statuses(m, ts, mono, results);
    let cur = m.statuses_after(ts, mono, results);
    let a = m.after(ts, mono, results);
    assert(m.layers.at(layer) is Some <==> has_layer(m.cfg.targets@, layer));
    assert(a.layers.at(layer) == m.layer_after(layer, cur, ts, mono));
    outages_reach_upwards(layer, cur);
    if layer != Layer::Host {
        a_judgement_moves_a_layer(m.layers.at(layer)->Some_0, layer, m, cur, ts, mono);
    }
}

/// Whether an event of a ladder layer tells what became of the layer: which
/// change it went through, and for how long it had been as it was.
pub open spec fn tells_of_layer(
    e: EventModel,
    before: LayerState,
    after: LayerState,
    cut: bool,
    mins: int,
    ts: u64,
    mono: u64,
) -> bool {
    ||| {
        &&& e.kind == "down"@
        &&& before.status != Status::Down && after.status == Status::Down
        &&& e.notify == !cut
        &&& e.duration_secs is None
        &&& e.priority == 4 && e.tags == "rotating_light"@
    }
    ||| {
        &&& e.kind == "still_down"@
        &&& before.status == Status::Down && after.status == Status::Down
        &&& !before.notified_down && !cut
        &&& e.notify
        &&& e.duration_secs is None
        &&& e.priority == 4 && e.tags == "rotating_light"@
    }
    ||| {
        &&& e.kind == "up"@
        &&& before.status == Status::Down && after.status != Status::Down
        &&& e.notify == (before.notified_down && !cut)
        &&& e.duration_secs is Some
        &&& timed(Some(before.since), before.since_mono, ts, mono, e.duration_secs->Some_0)
        &&& e.title == e.layer.title() + " recovered"@
        &&& e.message == "Back up after "@ + duration_text(e.duration_secs->Some_0) + "."@
        &&& e.priority == 3 && e.tags == "white_check_mark"@
    }
    ||| {
        &&& e.kind == "degraded"@
        &&& before.status == Status::Up && after.status == Status::Degraded
        &&& e.notify == (quiet_for(before.last_degraded_alert, mins, mono) && !cut)
        &&& e.duration_secs is None
        &&& e.title == "Internet degraded"@
        &&& e.priority == 3 && e.tags == "warning"@
    }
    ||| {
        &&& e.kind == "degraded_end"@
        &&& before.status == Status::Degraded && after.status == Status::Up
        &&& e.notify == (before.notified_degraded && !cut)
        &&& e.duration_secs is Some
        &&& timed(Some(before.since), before.since_mono, ts, mono, e.duration_secs->Some_0)
        &&& e.title == "Internet back to normal"@
        &&& e.message == "Degraded for "@ + duration_text(e.duration_secs->Some_0) + "."@
        &&& e.priority == 2 && e.tags == "white_check_mark"@
    }
}

/// Every event of a ladder layer is true: the layer went through the change that
/// the event tells, the event has the layer's own duration, and it is announced
/// just if it should be.
pub proof fn ladder_events_are_true(
    m: EngineModel,
    ts: u64,
    mono: u64,
    results: Seq<ProbeResult>,
    e: EventModel,
)
    requires
        m.well_formed(),
        m.events(ts, mono, results).contains(e),
        e.target is None,
    ensures
        e.layer != Layer::Host,
        m.layers.at(e.layer) is Some,
        tells_of_layer(
            e,
            m.layers.at(e.layer)->Some_0,
            m.after(ts, mono, results).layers.at(e.layer)->Some_0,
            cut_off(e.layer, m.after(ts, mono, results).current()),
            m.cfg.degraded.cooldown_mins as int,
            ts,
            mono,
        ),
{
    a_cycle_settles_the_statuses(m, ts, mono, results);
    events_have_a_source(m, ts, mono, results, e);
    let cur = m.statuses_after(ts, mono, results);
    if exists|l: Layer| m.is_change(ts, mono, results, l, e) {
        let l = choose|l: Layer| m.is_change(ts, mono, results, l, e);
        assert(e.layer == l);
        changes_are_true(m, ts, mono, results, l, e);
    } else if exists|l: Layer| m.is_overdue(ts, mono, results, l, e) {
        let l = choose|l: Layer| m.is_overdue(ts, mono, results, l, e);
        assert(e.layer == l);
        changes_are_true(m, ts, mono, results, l, e);
    }
}

proof fn changes_are_true(
    m: EngineModel,
    ts: u64,
    mono: u64,
    results: Seq<ProbeResult>,
    layer: Layer,
    e: EventModel,
)
    requires
        m.well_formed(),
        m.is_change(ts, mono, results, layer, e) || m.is_overdue(ts, mono, results, layer, e),
        e.layer == layer,
    ensures
        e.layer != Layer::Host,
        e.target is None,
        m.layers.at(layer) is Some,
        tells_of_layer(
            e,
            m.layers.at(layer)->Some_0,
            m.after(ts, mono, results).layers.at(layer)->Some_0,
            cut_off(layer, m.after(ts, mono, results).current()),
            m.cfg.degraded.cooldown_mins as int,
            ts,
            mono,
        ),
{
    a_cycle_settles_the_statuses(m, ts, mono, results);
    let cur = m.statuses_after(ts, mono, results);
    let a = m.after(ts, mono, results);
    assert(m.layers.at(layer) is Some <==> has_layer(m.cfg.targets@, layer));
    assert(a.layers.at(layer) == m.layer_after(layer, cur, ts, mono));
    outages_reach_upwards(layer, cur);
    statuses_are_timed(m.layers.at(layer)->Some_0, ts, mono);
}

/// Every change of a ladder layer's status is told, and so is every outage that
/// no longer is implied and was not announced yet.
pub proof fn ladder_changes_are_told(
    m: EngineModel,
    ts: u64,
    mono: u64,
    results: Seq<ProbeResult>,
    layer: Layer,
)
    requires
        m.well_formed(),
        layer != Layer::Host,
        m.layers.at(layer) is Some,
        ({
            let before = m.layers.at(layer)->Some_0;
            let after = m.after(ts, mono, results).layers.at(layer)->Some_0;
            ||| before.status != after.status
            ||| after.status == Status::Down && !before.notified_down && !cut_off(
                layer,
                m.after(ts, mono, results).current(),
            )
        }),
    ensures
        exists|e: EventModel|
            #[trigger] m.events(ts, mono, results).contains(e) && e.layer == layer
                && e.target is None,
{
    a_cycle_settles_the_statuses(m, ts, mono, results);
    let cur = m.statuses_after(ts, mono, results);
    let a = m.after(ts, mono, results);
    assert(m.layers.at(layer) is Some <==> has_layer(m.cfg.targets@, layer));
    assert(a.layers.at(layer) == m.layer_after(layer, cur, ts, mono));
    outages_reach_upwards(layer, cur);
    let aggs = aggregates(m.cfg, m.probed(ts, mono, results));
    if m.layers.at(layer)->Some_0.status != a.layers.at(layer)->Some_0.status {
        let e = m.layer_event(layer, cur, aggs, ts, mono)->Some_0;
        assert(m.is_change(ts, mono, results, layer, e));
        sources_have_their_event(m, ts, mono, results, e);
    } else {
        let e = m.layer_catch_up(layer, cur, ts, mono)->Some_0;
        assert(m.is_overdue(ts, mono, results, layer, e));
        sources_have_their_event(m, ts, mono, results, e);
    }
}

/// Whether an event of a host tells what became of the host.
pub open spec fn tells_of_host(
    e: EventModel,
    name: Seq<char>,
    addr: Seq<char>,
    alert: bool,
    before: TargetModel,
    after: TargetModel,
    lan_down: bool,
    ts: u64,
    mono: u64,
) -> bool {
    &&& e.layer == Layer::Host
    &&& e.target == Some(name)
    &&& {
        ||| {
            &&& e.kind == "down"@
            &&& before.up && !after.up
            &&& e.notify == (alert && !lan_down)
            &&& e.duration_secs is None
            &&& e.title == name + " DOWN"@
            &&& e.message == name + " ("@ + addr + ") stopped responding."@
            &&& e.priority == 4 && e.tags == "rotating_light"@
        }
        ||| {
            &&& e.kind == "still_down"@
            &&& !before.up && !after.up
            &&& alert && !before.notified_down && !lan_down
            &&& e.notify
            &&& e.duration_secs is None
            &&& e.title == name + " DOWN"@
            &&& exists|secs: u64|
                #[trigger] timed(before.down_since, before.down_since_mono, ts, mono, secs)
                    && e.message == name + " ("@ + addr + ") is not responding. Still down after "@
                    + duration_text(secs) + "."@
            &&& e.priority == 4 && e.tags == "rotating_light"@
        }
        ||| {
            &&& e.kind == "up"@
            &&& !before.up && after.up
            &&& e.notify == (before.notified_down && !lan_down)
            &&& e.duration_secs is Some
            &&& timed(before.down_since, before.down_since_mono, ts, mono, e.duration_secs->Some_0)
            &&& e.title == name + " recovered"@
            &&& e.message == name + " back after "@ + duration_text(e.duration_secs->Some_0) + "."@
            &&& e.priority == 3 && e.tags == "white_check_mark"@
        }
    }
}

/// Every event of a host is true: the host went through the change that the
/// event tells, with its own name and duration, and the event is announced just
/// if it should be.
pub proof fn host_events_are_true(
    m: EngineModel,
    ts: u64,
    mono: u64,
    results: Seq<ProbeResult>,
    e: EventModel,
)
    requires
        m.well_formed(),
        m.events(ts, mono, results).contains(e),
        e.target is Some,
    ensures
        exists|i: int|
            0 <= i < m.targets.len() && (#[trigger] m.cfg.targets@[i]).layer == Layer::Host
                && tells_of_host(
                e,
                m.cfg.targets@[i].name@,
                m.cfg.targets@[i].addr@,
                m.cfg.targets@[i].alert,
                m.targets[i],
                m.after(ts, mono, results).targets[i],
                m.after(ts, mono, results).current().lan == Some(Status::Down),
                ts,
                mono,
            ),
{
    a_cycle_settles_the_statuses(m, ts, mono, results);
    events_have_a_source(m, ts, mono, results, e);
    outages_reach_upwards(Layer::Host, m.statuses_after(ts, mono, results));
    if exists|i: int| m.is_of_host(ts, mono, results, i, e) {
        let i = choose|i: int| m.is_of_host(ts, mono, results, i, e);
        let st = m.probed(ts, mono, results)[i];
        assert(timed(st.down_since, st.down_since_mono, ts, mono, st.down_secs(ts, mono)));
        assert(m.cfg.targets@[i].layer == Layer::Host);
    }
}

/// A host that goes down or comes back has an event, and so has one that is
/// still down and not announced, once it can be.
pub proof fn host_changes_are_told(
    m: EngineModel,
    ts: u64,
    mono: u64,
    results: Seq<ProbeResult>,
    i: int,
)
    requires
        m.well_formed(),
        0 <= i < m.targets.len(),
        m.cfg.targets@[i].layer == Layer::Host,
        ({
            let before = m.targets[i];
            let after = m.after(ts, mono, results).targets[i];
            ||| before.up != after.up
            ||| !after.up && m.cfg.targets@[i].alert && !before.notified_down && m.after(
                ts,
                mono,
                results,
            ).current().lan != Some(Status::Down)
        }),
    ensures
        exists|e: EventModel|
            #[trigger] m.events(ts, mono, results).contains(e) && e.layer == Layer::Host
                && e.target == Some(m.cfg.targets@[i].name@),
{
    a_cycle_settles_the_statuses(m, ts, mono, results);
    let cur = m.statuses_after(ts, mono, results);
    outages_reach_upwards(Layer::Host, cur);
    let event = host_event(
        m.cfg.targets@[i],
        m.targets[i].up,
        m.probed(ts, mono, results)[i],
        implied(Layer::Host, cur),
        ts,
        mono,
    );
    assert(event is Some);
    assert(m.is_of_host(ts, mono, results, i, event->Some_0));
    sources_have_their_event(m, ts, mono, results, event->Some_0);
}

/// What a target remembers after a cycle, beside what its own probe tells: a
/// host's outage is remembered as announced once it is, and forgotten when it is
/// over; other targets are not announced by themselves. A target without a
/// result stays as it was.
pub proof fn a_cycle_moves_the_targets(
    m: EngineModel,
    ts: u64,
    mono: u64,
    results: Seq<ProbeResult>,
    i: int,
)
    requires
        m.well_formed(),
        0 <= i < m.targets.len(),
    ensures
        m.after(ts, mono, results).targets.len() == m.targets.len(),
        ({
            let t = m.cfg.targets@[i];
            let before = m.targets[i];
            let after = m.after(ts, mono, results).targets[i];
            let lan_down = m.after(ts, mono, results).current().lan == Some(Status::Down);
            let probed = if i < results.len() {
                before.probed(results[i], m.cfg, ts, mono)
            } else {
                before
            };
            &&& after.window == probed.window
            &&& after.up == probed.up
            &&& after.consec_ok == probed.consec_ok
            &&& after.consec_fail == probed.consec_fail
            &&& t.layer != Layer::Host ==> after == probed
            &&& t.layer == Layer::Host && before.up && !after.up ==> after.notified_down == (t.alert
                && !lan_down)
            &&& t.layer == Layer::Host && !before.up && !after.up ==> after.notified_down == (
            before.notified_down || t.alert && !lan_down)
            &&& t.layer == Layer::Host && before.up && after.up ==> after.notified_down
                == before.notified_down
            &&& t.layer == Layer::Host && !before.up && after.up ==> !after.notified_down
                && after.down_since is None && after.down_since_mono is None
            &&& before.up == after.up ==> after.down_since == before.down_since
                && after.down_since_mono == before.down_since_mono
            &&& before.up && !after.up ==> after.down_since == Some(ts) && after.down_since_mono
                == Some(mono)
        }),
{
    a_cycle_settles_the_statuses(m, ts, mono, results);
    outages_reach_upwards(Layer::Host, m.statuses_after(ts, mono, results));
}

/// The place of a layer in rank order.
pub open spec fn rank_of(layer: Layer) -> int {
    match layer {
        Layer::Lan => 0,
        Layer::Gateway => 1,
        Layer::Internet => 2,
        Layer::Dns => 3,
        Layer::Host => 4,
    }
}

/// The place of an event among those of its cycle: changes of layers by rank,
/// then overdue announcements of layers by rank, then hosts.
pub open spec fn place_of(e: EventModel) -> int {
    if e.target is Some {
        8
    } else if e.kind == "still_down"@ {
        4 + rank_of(e.layer)
    } else {
        rank_of(e.layer)
    }
}

proof fn four_in_order(
    a: Option<EventModel>,
    b: Option<EventModel>,
    c: Option<EventModel>,
    d: Option<EventModel>,
    base: int,
)
    requires
        a is Some ==> a->Some_0.layer == Layer::Lan && place_of(a->Some_0) == base,
        b is Some ==> b->Some_0.layer == Layer::Gateway && place_of(b->Some_0) == base + 1,
        c is Some ==> c->Some_0.layer == Layer::Internet && place_of(c->Some_0) == base + 2,
        d is Some ==> d->Some_0.layer == Layer::Dns && place_of(d->Some_0) == base + 3,
    ensures
        ({
            let all = listed(a) + listed(b) + listed(c) + listed(d);
            &&& forall|i: int, j: int|
                0 <= i < j < all.len() ==> place_of(#[trigger] all[i]) < place_of(
                    #[trigger] all[j],
                )
            &&& forall|i: int|
                0 <= i < all.len() ==> place_of(#[trigger] all[i]) == base + rank_of(all[i].layer)
                    && all[i].layer != Layer::Host && (Some(all[i]) == a || Some(all[i]) == b
                    || Some(all[i]) == c || Some(all[i]) == d)
        }),
{
}

proof fn three_parts_in_order(
    a: Seq<EventModel>,
    b: Seq<EventModel>,
    c: Seq<EventModel>,
    i: int,
    j: int,
)
    requires
        0 <= i < j < (a + b + c).len(),
        forall|x: int, y: int|
            0 <= x < y < a.len() ==> place_of(#[trigger] a[x]) < place_of(#[trigger] a[y]),
        forall|x: int, y: int|
            0 <= x < y < b.len() ==> place_of(#[trigger] b[x]) < place_of(#[trigger] b[y]),
        forall|x: int|
            0 <= x < a.len() ==> place_of(#[trigger] a[x]) == rank_of(a[x].layer) && a[x].layer
                != Layer::Host,
        forall|x: int|
            0 <= x < b.len() ==> place_of(#[trigger] b[x]) == 4 + rank_of(b[x].layer) && b[x].layer
                != Layer::Host,
        forall|x: int| 0 <= x < c.len() ==> (#[trigger] c[x]).target is Some,
        forall|x: int, y: int|
            0 <= x < a.len() && 0 <= y < b.len() ==> (#[trigger] a[x]).layer != (
            #[trigger] b[y]).layer,
    ensures
        place_of((a + b + c)[i]) <= place_of((a + b + c)[j]),
        (a + b + c)[i].target is None && (a + b + c)[j].target is None ==> (a + b + c)[i].layer != (
        a + b + c)[j].layer,
{
    let n = a.len() as int;
    let k = (a.len() + b.len()) as int;
    let all = a + b + c;
    assert(all[i] == if i < n {
        a[i]
    } else if i < k {
        b[i - n]
    } else {
        c[i - k]
    });
    assert(all[j] == if j < n {
        a[j]
    } else if j < k {
        b[j - n]
    } else {
        c[j - k]
    });
}

/// A layer whose status changes in a cycle has no overdue announcement in it.
proof fn a_change_leaves_nothing_overdue(
    m: EngineModel,
    cur: LayerMap<Status>,
    ts: u64,
    mono: u64,
    layer: Layer,
)
    requires
        layer != Layer::Host,
        m.layers.at(layer) is Some ==> cur.at(layer) is Some,
        m.layers.at(layer) is Some ==> m.layers.at(layer)->Some_0.status != cur.at(layer)->Some_0,
    ensures
        m.layer_catch_up(layer, cur, ts, mono) is None,
{
}

/// The events of a cycle come in order: changes of ladder layers by rank, then
/// overdue announcements by rank, then hosts. No layer has two in a cycle.
pub proof fn events_come_in_order(
    m: EngineModel,
    ts: u64,
    mono: u64,
    results: Seq<ProbeResult>,
    i: int,
    j: int,
)
    requires
        m.well_formed(),
        0 <= i < j < m.events(ts, mono, results).len(),
    ensures
        ({
            let events = m.events(ts, mono, results);
            &&& place_of(events[i]) <= place_of(events[j])
            &&& events[i].target is None && events[j].target is None ==> events[i].layer
                != events[j].layer
        }),
{
    let probed = m.probed(ts, mono, results);
    let cur = statuses(m.cfg, probed);
    let aggs = aggregates(m.cfg, probed);
    let lan_down = implied(Layer::Host, cur);
    let hosts = m.host_events(probed, lan_down, ts, mono, probed.len() as int);
    ladder_events_come_in_order(m, cur, aggs, ts, mono);
    let places = host_events_come_in_order(m, probed, lan_down, ts, mono, probed.len() as int);
    assert forall|k: int| 0 <= k < hosts.len() implies (#[trigger] hosts[k]).target is Some by {
        assert(0 <= places[k]);
    }
    three_parts_in_order(
        m.change_events(cur, aggs, ts, mono),
        m.overdue_events(cur, ts, mono),
        hosts,
        i,
        j,
    );
}

proof fn ladder_events_come_in_order(
    m: EngineModel,
    cur: LayerMap<Status>,
    aggs: LayerMap<LayerAgg>,
    ts: u64,
    mono: u64,
)
    requires
        m.well_formed(),
        forall|l: Layer| (#[trigger] cur.at(l)) is Some <==> has_layer(m.cfg.targets@, l),
    ensures
        ({
            let a = m.change_events(cur, aggs, ts, mono);
            let b = m.overdue_events(cur, ts, mono);
            &&& forall|x: int, y: int|
                0 <= x < y < a.len() ==> place_of(#[trigger] a[x]) < place_of(#[trigger] a[y])
            &&& forall|x: int, y: int|
                0 <= x < y < b.len() ==> place_of(#[trigger] b[x]) < place_of(#[trigger] b[y])
            &&& forall|x: int|
                0 <= x < a.len() ==> place_of(#[trigger] a[x]) == rank_of(a[x].layer) && a[x].layer
                    != Layer::Host
            &&& forall|x: int|
                0 <= x < b.len() ==> place_of(#[trigger] b[x]) == 4 + rank_of(b[x].layer)
                    && b[x].layer != Layer::Host
            &&& forall|x: int, y: int|
                0 <= x < a.len() && 0 <= y < b.len() ==> (#[trigger] a[x]).layer != (
                #[trigger] b[y]).layer
        }),
{
    kinds_are_distinct();
    let a = m.change_events(cur, aggs, ts, mono);
    let b = m.overdue_events(cur, ts, mono);
    four_in_order(
        m.layer_event(Layer::Lan, cur, aggs, ts, mono),
        m.layer_event(Layer::Gateway, cur, aggs, ts, mono),
        m.layer_event(Layer::Internet, cur, aggs, ts, mono),
        m.layer_event(Layer::Dns, cur, aggs, ts, mono),
        0,
    );
    four_in_order(
        m.layer_catch_up(Layer::Lan, cur, ts, mono),
        m.layer_catch_up(Layer::Gateway, cur, ts, mono),
        m.layer_catch_up(Layer::Internet, cur, ts, mono),
        m.layer_catch_up(Layer::Dns, cur, ts, mono),
        4,
    );
    assert forall|x: int, y: int| 0 <= x < a.len() && 0 <= y < b.len() implies (
    #[trigger] a[x]).layer != (#[trigger] b[y]).layer by {
        let l = a[x].layer;
        assert(m.layer_event(l, cur, aggs, ts, mono) == Some(a[x]));
        assert(m.layers.at(l) is Some <==> has_layer(m.cfg.targets@, l));
        assert(cur.at(l) is Some <==> has_layer(m.cfg.targets@, l));
        a_change_leaves_nothing_overdue(m, cur, ts, mono, l);
        if b[y].layer == l {
            assert(m.layer_catch_up(l, cur, ts, mono) == Some(b[y]));
        }
    }
}

/// The hosts' events come in the order in which the hosts are configured, and no
/// host has two in a cycle: the events are those of targets further and further
/// down the list.
pub proof fn host_events_come_in_order(
    m: EngineModel,
    probed: Seq<TargetModel>,
    lan_down: bool,
    ts: u64,
    mono: u64,
    n: int,
) -> (places: Seq<int>)
    ensures
        places.len() == m.host_events(probed, lan_down, ts, mono, n).len(),
        forall|k: int|
            0 <= k < places.len() ==> 0 <= #[trigger] places[k] < n && m.host_events(
                probed,
                lan_down,
                ts,
                mono,
                n,
            )[k].target == Some(m.cfg.targets@[places[k]].name@),
        forall|j: int, k: int| 0 <= j < k < places.len() ==> places[j] < places[k],
    decreases n,
{
    if n <= 0 {
        Seq::empty()
    } else {
        let rest = host_events_come_in_order(m, probed, lan_down, ts, mono, n - 1);
        if m.host_events(probed, lan_down, ts, mono, n).len() > rest.len() {
            rest.push(n - 1)
        } else {
            rest
        }
    }
}

} // verus!
