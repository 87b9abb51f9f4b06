//! The event log tells the engine's story, also across a restart.

use crate::config::{distinct_names, Config};
use crate::engine::{EngineModel, ResumeState};
use crate::events::{kinds_are_distinct, listed, EventModel};
use crate::hosts::host_event;
use crate::ladder::{up_event, LayerState};
use crate::laws::{events_have_a_source, sources_have_their_event};
use crate::layer::{implied, Layer, LayerMap, Status};
use crate::monitor::{
    clipped, down_from, is_recent, resumed_layer, resumed_target, resumed_targets, resumes,
    was_judged_down,
};
use crate::probes::ProbeResult;
use crate::runs::{
    a_lasting_outage_keeps_its_start, a_lasting_status_keeps_its_start,
    cycles_keep_the_engine_sound, Cycle,
};
use crate::status::{aggregates, any_up, has_layer, LayerAgg};
use crate::store::{
    reports_down, stored_host_outage, stored_outage, EventMarkModel, TargetResume,
};
use crate::target::{elapsed, TargetModel};
use vstd::prelude::*;

verus! {

/// A recorded event.
pub struct LoggedEvent {
    pub ts: u64,
    pub layer: Seq<char>,
    pub kind: Seq<char>,
    pub target: Option<Seq<char>>,
    pub notified: bool,
}

/// An event as it is recorded at `ts`.
pub open spec fn logged(e: EventModel, ts: u64) -> LoggedEvent {
    LoggedEvent {
        ts,
        layer: e.layer.name(),
        kind: e.kind,
        target: e.target,
        notified: e.notify,
    }
}

/// The events of a cycle as they are recorded at `ts`.
pub open spec fn recorded(events: Seq<EventModel>, ts: u64) -> Seq<LoggedEvent> {
    events.map_values(|e: EventModel| logged(e, ts))
}

/// The latest of some recorded events, in the order of their timestamps and
/// then of their recording.
pub open spec fn latest(log: Seq<LoggedEvent>, p: spec_fn(LoggedEvent) -> bool) -> Option<
    LoggedEvent,
>
    decreases log.len(),
{
    if log.len() == 0 {
        None
    } else {
        let rest = latest(log.drop_last(), p);
        let e = log.last();
        if p(e) && (rest is None || rest->Some_0.ts <= e.ts) {
            Some(e)
        } else {
            rest
        }
    }
}

/// What some recorded events tell of something that goes down and comes back.
pub enum Story {
    /// It is up.
    Up,
    /// It is down, and that was announced or not.
    Down { announced: bool },
    /// The events do not fit together: it went down or was announced as down
    /// twice in a row, or came back or was still down without having gone down.
    Torn,
}

/// The story with one more event.
pub open spec fn told(story: Story, e: LoggedEvent) -> Story {
    if e.kind == "down"@ {
        match story {
            Story::Up => Story::Down { announced: e.notified },
            _ => Story::Torn,
        }
    } else if e.kind == "still_down"@ {
        match story {
            Story::Down { announced: false } => Story::Down { announced: e.notified },
            Story::Down { announced: true } if !e.notified => story,
            _ => Story::Torn,
        }
    } else if e.kind == "up"@ {
        match story {
            Story::Down { .. } => Story::Up,
            _ => Story::Torn,
        }
    } else {
        story
    }
}

/// What the events that are such tell, in the order of their recording,
/// beginning with up.
pub open spec fn story(log: Seq<LoggedEvent>, p: spec_fn(LoggedEvent) -> bool) -> Story
    decreases log.len(),
{
    if log.len() == 0 {
        Story::Up
    } else {
        let before = story(log.drop_last(), p);
        if p(log.last()) {
            told(before, log.last())
        } else {
            before
        }
    }
}

/// The layer's events of a kind.
pub open spec fn of_kind(layer: Layer, kind: Seq<char>) -> spec_fn(LoggedEvent) -> bool {
    |e: LoggedEvent| e.layer == layer.name() && e.kind == kind
}

/// The layer's events that tell of an outage.
pub open spec fn of_outage(layer: Layer) -> spec_fn(LoggedEvent) -> bool {
    |e: LoggedEvent|
        e.layer == layer.name() && (e.kind == "down"@ || e.kind == "still_down"@ || e.kind
            == "up"@)
}

/// The events of a host.
pub open spec fn of_host(name: Seq<char>) -> spec_fn(LoggedEvent) -> bool {
    |e: LoggedEvent| e.layer == Layer::Host.name() && e.target == Some(name)
}

/// The "down" events of a host.
pub open spec fn of_host_down(name: Seq<char>) -> spec_fn(LoggedEvent) -> bool {
    |e: LoggedEvent|
        e.layer == Layer::Host.name() && e.target == Some(name) && e.kind == "down"@
}

/// A recorded event as it is read back.
pub open spec fn mark(e: Option<LoggedEvent>) -> Option<EventMarkModel> {
    match e {
        Some(e) => Some(
            EventMarkModel {
                kind: e.kind,
                ts: e.ts as i64,
                notified: if e.notified {
                    1
                } else {
                    0
                },
            },
        ),
        None => None,
    }
}

/// The time of a recorded event as it is read back.
pub open spec fn time(e: Option<LoggedEvent>) -> Option<i64> {
    match e {
        Some(e) => Some(e.ts as i64),
        None => None,
    }
}

/// The outage that a layer is in, according to the log.
pub open spec fn outage_in(log: Seq<LoggedEvent>, layer: Layer) -> Option<(u64, bool)> {
    stored_outage(
        mark(latest(log, of_outage(layer))),
        time(latest(log, of_kind(layer, "down"@))),
    )
}

/// The outage that a host is in, according to the log.
pub open spec fn host_outage_in(log: Seq<LoggedEvent>, name: Seq<char>) -> Option<(u64, bool)> {
    stored_host_outage(mark(latest(log, of_host(name))), time(latest(log, of_host_down(name))))
}

/// Whether no event was recorded with an earlier time than one before it.
pub open spec fn ordered(log: Seq<LoggedEvent>) -> bool {
    forall|i: int, j: int|
        0 <= i <= j < log.len() ==> (#[trigger] log[i]).ts <= (#[trigger] log[j]).ts
}

/// Whether nothing in the log is later than `ts`.
pub open spec fn up_to(log: Seq<LoggedEvent>, ts: u64) -> bool {
    forall|i: int| 0 <= i < log.len() ==> (#[trigger] log[i]).ts <= ts
}

/// Whether the log tells a ladder layer's state: whether it is down and whether
/// that was announced; and, if no clock was set back, since when, by its latest
/// events.
#[verifier::opaque]
pub open spec fn tells_layer(log: Seq<LoggedEvent>, layer: Layer, ls: LayerState) -> bool {
    let last = latest(log, of_outage(layer));
    let began = latest(log, of_kind(layer, "down"@));
    if ls.status == Status::Down {
        &&& story(log, of_outage(layer)) == (Story::Down { announced: ls.notified_down })
        &&& ordered(log) ==> {
            &&& last is Some
            &&& reports_down(last->Some_0.kind)
            &&& last->Some_0.kind == "down"@ ==> last->Some_0.ts == ls.since
            &&& last->Some_0.notified == ls.notified_down
            &&& began is Some
            &&& began->Some_0.ts == ls.since
        }
    } else {
        &&& story(log, of_outage(layer)) == Story::Up
        &&& ordered(log) ==> last is None || last->Some_0.kind == "up"@
    }
}

/// Whether the log tells a host's state: whether it is down and whether that
/// was announced; and, if no clock was set back, by its latest event.
#[verifier::opaque]
pub open spec fn tells_host(log: Seq<LoggedEvent>, name: Seq<char>, t: TargetModel) -> bool {
    let last = latest(log, of_host(name));
    if t.up {
        &&& story(log, of_host(name)) == Story::Up
        &&& !t.notified_down
        &&& ordered(log) ==> last is None || last->Some_0.kind == "up"@
    } else {
        &&& story(log, of_host(name)) == (Story::Down { announced: t.notified_down })
        &&& ordered(log) ==> last is Some && reports_down(last->Some_0.kind)
            && last->Some_0.notified == t.notified_down
    }
}

/// Whether the log tells the state of every ladder layer and every host.
pub open spec fn tells(log: Seq<LoggedEvent>, m: EngineModel) -> bool {
    &&& forall|l: Layer|
        l != Layer::Host && (#[trigger] m.layers.at(l)) is Some ==> tells_layer(
            log,
            l,
            m.layers.at(l)->Some_0,
        )
    &&& forall|i: int|
        0 <= i < m.targets.len() && m.cfg.targets@[i].layer == Layer::Host ==> tells_host(
            log,
            m.cfg.targets@[i].name@,
            #[trigger] m.targets[i],
        )
}

/// The layers are told apart by their names.
pub proof fn layer_names_are_distinct(a: Layer, b: Layer)
    requires
        a.name() == b.name(),
    ensures
        a == b,
{
    reveal_strlit("lan");
    reveal_strlit("gateway");
    reveal_strlit("internet");
    reveal_strlit("dns");
    reveal_strlit("host");
    assert("lan"@.len() == 3 && "lan"@[0] == 'l');
    assert("gateway"@.len() == 7);
    assert("internet"@.len() == 8);
    assert("dns"@.len() == 3 && "dns"@[0] == 'd');
    assert("host"@.len() == 4);
}

proof fn latest_is_logged(log: Seq<LoggedEvent>, p: spec_fn(LoggedEvent) -> bool, ts: u64)
    requires
        up_to(log, ts),
    ensures
        latest(log, p) is Some ==> latest(log, p)->Some_0.ts <= ts,
    decreases log.len(),
{
    if log.len() > 0 {
        assert(log.last() == log[log.len() - 1]);
        assert forall|i: int| 0 <= i < log.drop_last().len() implies (
        #[trigger] log.drop_last()[i]).ts <= ts by {
            assert(log.drop_last()[i] == log[i]);
        }
        latest_is_logged(log.drop_last(), p, ts);
    }
}

/// What one more event adds to the log.
proof fn one_more(log: Seq<LoggedEvent>, e: LoggedEvent, p: spec_fn(LoggedEvent) -> bool)
    ensures
        story(log.push(e), p) == (if p(e) {
            told(story(log, p), e)
        } else {
            story(log, p)
        }),
        ordered(log.push(e)) ==> ordered(log) && latest(log.push(e), p) == (if p(e) {
            Some(e)
        } else {
            latest(log, p)
        }),
{
    let all = log.push(e);
    assert(all.drop_last() =~= log);
    assert(all.last() == e);
    if ordered(all) {
        assert forall|i: int, j: int| 0 <= i <= j < log.len() implies (#[trigger] log[i]).ts <= (
        #[trigger] log[j]).ts by {
            assert(all[i] == log[i] && all[j] == log[j]);
        }
        assert forall|i: int| 0 <= i < log.len() implies (#[trigger] log[i]).ts <= e.ts by {
            assert(all[i] == log[i] && all[log.len() as int] == e);
        }
        latest_is_logged(log, p, e.ts);
    }
}

/// What at most one event of a cycle adds to the log.
spec fn longer(log: Seq<LoggedEvent>, event: Option<EventModel>, ts: u64) -> Seq<LoggedEvent> {
    log + recorded(listed(event), ts)
}

proof fn perhaps_one_more(
    log: Seq<LoggedEvent>,
    event: Option<EventModel>,
    ts: u64,
    p: spec_fn(LoggedEvent) -> bool,
)
    ensures
        match event {
            Some(e) => {
                let all = longer(log, event, ts);
                &&& story(all, p) == (if p(logged(e, ts)) {
                    told(story(log, p), logged(e, ts))
                } else {
                    story(log, p)
                })
                &&& ordered(all) ==> ordered(log) && latest(all, p) == (if p(logged(e, ts)) {
                    Some(logged(e, ts))
                } else {
                    latest(log, p)
                })
            },
            None => longer(log, event, ts) == log,
        },
{
    match event {
        Some(e) => {
            assert(longer(log, event, ts) =~= log.push(logged(e, ts)));
            one_more(log, logged(e, ts), p);
        },
        None => {
            assert(longer(log, event, ts) =~= log);
        },
    }
}

/// What the log tells of a layer is not changed by an event of another.
proof fn others_leave_a_layer_told(
    log: Seq<LoggedEvent>,
    event: Option<EventModel>,
    ts: u64,
    layer: Layer,
    ls: LayerState,
)
    requires
        tells_layer(log, layer, ls),
        event is Some ==> event->Some_0.layer != layer,
    ensures
        tells_layer(longer(log, event, ts), layer, ls),
{
    reveal(tells_layer);
    perhaps_one_more(log, event, ts, of_outage(layer));
    perhaps_one_more(log, event, ts, of_kind(layer, "down"@));
    if event is Some && event->Some_0.layer.name() == layer.name() {
        layer_names_are_distinct(event->Some_0.layer, layer);
    }
}

/// A ladder layer that is judged anew is told by its event, if that is of the
/// same layer.
proof fn a_change_is_told(
    m: EngineModel,
    log: Seq<LoggedEvent>,
    changed: Layer,
    layer: Layer,
    cur: LayerMap<Status>,
    ts: u64,
    mono: u64,
    results: Seq<ProbeResult>,
    ls: LayerState,
)
    requires
        tells_layer(log, layer, ls),
        changed == layer ==> m.layers.at(layer) == Some(ls),
    ensures
        ({
            let aggs = aggregates(m.cfg, m.probed(ts, mono, results));
            let log2 = longer(log, m.layer_event(changed, cur, aggs, ts, mono), ts);
            &&& tells_layer(
                log2,
                layer,
                if changed == layer {
                    ls.moved(layer, m.cfg, cur, ts, mono)
                } else {
                    ls
                },
            )
        }),
{
    let aggs = aggregates(m.cfg, m.probed(ts, mono, results));
    let event = m.layer_event(changed, cur, aggs, ts, mono);
    if changed == layer {
        reveal(tells_layer);
        kinds_are_distinct();
        perhaps_one_more(log, event, ts, of_outage(layer));
        perhaps_one_more(log, event, ts, of_kind(layer, "down"@));
        } else {
        others_leave_a_layer_told(log, event, ts, layer, ls);
    }
}

/// A ladder layer whose overdue outage is announced is told by its event, if
/// that is of the same layer.
proof fn a_catch_up_is_told(
    m: EngineModel,
    log: Seq<LoggedEvent>,
    announced: Layer,
    layer: Layer,
    cur: LayerMap<Status>,
    ts: u64,
    mono: u64,
    ls: LayerState,
)
    requires
        tells_layer(log, layer, ls),
        announced == layer ==> m.layer_moved(layer, cur, ts, mono) == Some(ls),
    ensures
        ({
            let log2 = longer(log, m.layer_catch_up(announced, cur, ts, mono), ts);
            &&& tells_layer(
                log2,
                layer,
                if announced == layer && ls.overdue(layer, cur) {
                    LayerState { notified_down: true, ..ls }
                } else {
                    ls
                },
            )
        }),
{
    let event = m.layer_catch_up(announced, cur, ts, mono);
    if announced == layer {
        reveal(tells_layer);
        kinds_are_distinct();
        perhaps_one_more(log, event, ts, of_outage(layer));
        perhaps_one_more(log, event, ts, of_kind(layer, "down"@));
        } else {
        others_leave_a_layer_told(log, event, ts, layer, ls);
    }
}

/// What the log tells of a ladder layer is not changed by the events of hosts.
proof fn hosts_leave_a_layer_told(
    m: EngineModel,
    log: Seq<LoggedEvent>,
    probed: Seq<TargetModel>,
    lan_down: bool,
    ts: u64,
    mono: u64,
    n: int,
    layer: Layer,
    ls: LayerState,
)
    requires
        tells_layer(log, layer, ls),
        layer != Layer::Host,
    ensures
        ({
            let log2 = log + recorded(m.host_events(probed, lan_down, ts, mono, n), ts);
            tells_layer(log2, layer, ls)
        }),
    decreases n,
{
    let all = log + recorded(m.host_events(probed, lan_down, ts, mono, n), ts);
    if n <= 0 {
        assert(all =~= log);
    } else {
        hosts_leave_a_layer_told(m, log, probed, lan_down, ts, mono, n - 1, layer, ls);
        let fewer = log + recorded(m.host_events(probed, lan_down, ts, mono, n - 1), ts);
        let t = m.cfg.targets@[n - 1];
        if t.layer == Layer::Host {
            let event = host_event(t, m.targets[n - 1].up, probed[n - 1], lan_down, ts, mono);
            others_leave_a_layer_told(fewer, event, ts, layer, ls);
            assert(all =~= longer(fewer, event, ts));
        } else {
            assert(all =~= fewer);
        }
    }
}

/// What a cycle's events add to the log, for the four ladder layers in turn.
spec fn longer_by_four(
    log: Seq<LoggedEvent>,
    a: Option<EventModel>,
    b: Option<EventModel>,
    c: Option<EventModel>,
    d: Option<EventModel>,
    ts: u64,
) -> Seq<LoggedEvent> {
    longer(longer(longer(longer(log, a, ts), b, ts), c, ts), d, ts)
}

proof fn four_events_one_by_one(
    log: Seq<LoggedEvent>,
    a: Option<EventModel>,
    b: Option<EventModel>,
    c: Option<EventModel>,
    d: Option<EventModel>,
    ts: u64,
)
    ensures
        log + recorded(listed(a) + listed(b) + listed(c) + listed(d), ts) == longer_by_four(
            log,
            a,
            b,
            c,
            d,
            ts,
        ),
{
    let l1 = longer(log, a, ts);
    let l2 = longer(l1, b, ts);
    let l3 = longer(l2, c, ts);
    assert(l2 =~= log + recorded(listed(a) + listed(b), ts));
    assert(l3 =~= log + recorded(listed(a) + listed(b) + listed(c), ts));
    assert(longer_by_four(log, a, b, c, d, ts) =~= log + recorded(
        listed(a) + listed(b) + listed(c) + listed(d),
        ts,
    ));
}

/// The changes of a cycle tell how a ladder layer was judged.
proof fn changes_are_told(
    m: EngineModel,
    log: Seq<LoggedEvent>,
    ts: u64,
    mono: u64,
    results: Seq<ProbeResult>,
    layer: Layer,
)
    requires
        layer != Layer::Host,
        m.layers.at(layer) is Some,
        tells_layer(log, layer, m.layers.at(layer)->Some_0),
    ensures
        ({
            let cur = m.statuses_after(ts, mono, results);
            let aggs = aggregates(m.cfg, m.probed(ts, mono, results));
            let log2 = log + recorded(m.change_events(cur, aggs, ts, mono), ts);
            &&& m.layer_moved(layer, cur, ts, mono) is Some
            &&& tells_layer(log2, layer, m.layer_moved(layer, cur, ts, mono)->Some_0)
        }),
{
    let cur = m.statuses_after(ts, mono, results);
    let aggs = aggregates(m.cfg, m.probed(ts, mono, results));
    let ls = m.layers.at(layer)->Some_0;
    let moved = m.layer_moved(layer, cur, ts, mono)->Some_0;
    let a = m.layer_event(Layer::Lan, cur, aggs, ts, mono);
    let b = m.layer_event(Layer::Gateway, cur, aggs, ts, mono);
    let c = m.layer_event(Layer::Internet, cur, aggs, ts, mono);
    let d = m.layer_event(Layer::Dns, cur, aggs, ts, mono);
    let l1 = longer(log, a, ts);
    let l2 = longer(l1, b, ts);
    let l3 = longer(l2, c, ts);
    four_events_one_by_one(log, a, b, c, d, ts);
    let s1 = if layer == Layer::Lan {
        moved
    } else {
        ls
    };
    let s2 = if layer == Layer::Gateway {
        moved
    } else {
        s1
    };
    let s3 = if layer == Layer::Internet {
        moved
    } else {
        s2
    };
    a_change_is_told(m, log, Layer::Lan, layer, cur, ts, mono, results, ls);
    a_change_is_told(m, l1, Layer::Gateway, layer, cur, ts, mono, results, s1);
    a_change_is_told(m, l2, Layer::Internet, layer, cur, ts, mono, results, s2);
    a_change_is_told(m, l3, Layer::Dns, layer, cur, ts, mono, results, s3);
}

/// The overdue announcements of a cycle tell what becomes of a ladder layer.
proof fn catch_ups_are_told(
    m: EngineModel,
    log: Seq<LoggedEvent>,
    ts: u64,
    mono: u64,
    cur: LayerMap<Status>,
    layer: Layer,
)
    requires
        layer != Layer::Host,
        m.layer_moved(layer, cur, ts, mono) is Some,
        tells_layer(log, layer, m.layer_moved(layer, cur, ts, mono)->Some_0),
    ensures
        ({
            let log2 = log + recorded(m.overdue_events(cur, ts, mono), ts);
            &&& m.layer_after(layer, cur, ts, mono) is Some
            &&& tells_layer(log2, layer, m.layer_after(layer, cur, ts, mono)->Some_0)
        }),
{
    let moved = m.layer_moved(layer, cur, ts, mono)->Some_0;
    let after = m.layer_after(layer, cur, ts, mono)->Some_0;
    let a = m.layer_catch_up(Layer::Lan, cur, ts, mono);
    let b = m.layer_catch_up(Layer::Gateway, cur, ts, mono);
    let c = m.layer_catch_up(Layer::Internet, cur, ts, mono);
    let d = m.layer_catch_up(Layer::Dns, cur, ts, mono);
    let l1 = longer(log, a, ts);
    let l2 = longer(l1, b, ts);
    let l3 = longer(l2, c, ts);
    four_events_one_by_one(log, a, b, c, d, ts);
    let s1 = if layer == Layer::Lan {
        after
    } else {
        moved
    };
    let s2 = if layer == Layer::Gateway {
        after
    } else {
        s1
    };
    let s3 = if layer == Layer::Internet {
        after
    } else {
        s2
    };
    a_catch_up_is_told(m, log, Layer::Lan, layer, cur, ts, mono, moved);
    a_catch_up_is_told(m, l1, Layer::Gateway, layer, cur, ts, mono, s1);
    a_catch_up_is_told(m, l2, Layer::Internet, layer, cur, ts, mono, s2);
    a_catch_up_is_told(m, l3, Layer::Dns, layer, cur, ts, mono, s3);
}

proof fn recorded_in_three_parts(
    log: Seq<LoggedEvent>,
    a: Seq<EventModel>,
    b: Seq<EventModel>,
    c: Seq<EventModel>,
    ts: u64,
)
    ensures
        log + recorded(a + b + c, ts) == log + recorded(a, ts) + recorded(b, ts) + recorded(c, ts),
        log + recorded(a + b + c, ts) == log + recorded(a + b, ts) + recorded(c, ts),
{
    assert(log + recorded(a + b + c, ts) =~= log + recorded(a, ts) + recorded(b, ts) + recorded(
        c,
        ts,
    ));
    assert(log + recorded(a + b + c, ts) =~= log + recorded(a + b, ts) + recorded(c, ts));
}

/// A cycle's events tell how a ladder layer fared.
proof fn a_cycle_is_told_of_a_layer(
    m: EngineModel,
    log: Seq<LoggedEvent>,
    ts: u64,
    mono: u64,
    results: Seq<ProbeResult>,
    layer: Layer,
)
    requires
        layer != Layer::Host,
        m.layers.at(layer) is Some,
        tells_layer(log, layer, m.layers.at(layer)->Some_0),
    ensures
        m.after(ts, mono, results).layers.at(layer) is Some,
        tells_layer(
            log + recorded(m.events(ts, mono, results), ts),
            layer,
            m.after(ts, mono, results).layers.at(layer)->Some_0,
        ),
{
    let probed = m.probed(ts, mono, results);
    let cur = m.statuses_after(ts, mono, results);
    let aggs = aggregates(m.cfg, probed);
    let changes = m.change_events(cur, aggs, ts, mono);
    let overdue = m.overdue_events(cur, ts, mono);
    let lan_down = implied(Layer::Host, cur);
    let hosts = m.host_events(probed, lan_down, ts, mono, probed.len() as int);
    let log1 = log + recorded(changes, ts);
    let log2 = log1 + recorded(overdue, ts);
    let after = m.after(ts, mono, results).layers.at(layer)->Some_0;
    assert(m.after(ts, mono, results).layers.at(layer) == m.layer_after(layer, cur, ts, mono));
    changes_are_told(m, log, ts, mono, results, layer);
    catch_ups_are_told(m, log1, ts, mono, cur, layer);
    hosts_leave_a_layer_told(
        m,
        log2,
        probed,
        lan_down,
        ts,
        mono,
        probed.len() as int,
        layer,
        after,
    );
    recorded_in_three_parts(log, changes, overdue, hosts, ts);
}


/// What the log tells of a host is not changed by events of others.
proof fn others_leave_a_host_told(
    log: Seq<LoggedEvent>,
    events: Seq<EventModel>,
    ts: u64,
    name: Seq<char>,
    t: TargetModel,
)
    requires
        tells_host(log, name, t),
        forall|k: int| 0 <= k < events.len() ==> !of_host(name)(logged(#[trigger] events[k], ts)),
    ensures
        tells_host(log + recorded(events, ts), name, t),
    decreases events.len(),
{
    let all = log + recorded(events, ts);
    if events.len() == 0 {
        assert(all =~= log);
    } else {
        let fewer = events.drop_last();
        assert forall|k: int| 0 <= k < fewer.len() implies !of_host(name)(
            logged(#[trigger] fewer[k], ts),
        ) by {
            assert(fewer[k] == events[k]);
        }
        others_leave_a_host_told(log, fewer, ts, name, t);
        assert(all =~= (log + recorded(fewer, ts)).push(logged(events.last(), ts)));
        assert(!of_host(name)(logged(events[events.len() - 1], ts)));
        one_more(log + recorded(fewer, ts), logged(events.last(), ts), of_host(name));
        reveal(tells_host);
    }
}

/// An event of a layer of the ladder, if there is one.
spec fn of_the_ladder(event: Option<EventModel>) -> bool {
    event is Some ==> event->Some_0.layer != Layer::Host
}

proof fn four_events_of_the_ladder(
    a: Option<EventModel>,
    b: Option<EventModel>,
    c: Option<EventModel>,
    d: Option<EventModel>,
    k: int,
)
    requires
        of_the_ladder(a),
        of_the_ladder(b),
        of_the_ladder(c),
        of_the_ladder(d),
        0 <= k < (listed(a) + listed(b) + listed(c) + listed(d)).len(),
    ensures
        (listed(a) + listed(b) + listed(c) + listed(d))[k].layer != Layer::Host,
{
}

proof fn ladder_events_are_of_the_ladder(
    m: EngineModel,
    cur: LayerMap<Status>,
    aggs: LayerMap<LayerAgg>,
    ts: u64,
    mono: u64,
    k: int,
)
    requires
        0 <= k < (m.change_events(cur, aggs, ts, mono) + m.overdue_events(cur, ts, mono)).len(),
    ensures
        (m.change_events(cur, aggs, ts, mono) + m.overdue_events(cur, ts, mono))[k].layer
            != Layer::Host,
{
    let changes = m.change_events(cur, aggs, ts, mono);
    let a = m.layer_event(Layer::Lan, cur, aggs, ts, mono);
    let b = m.layer_event(Layer::Gateway, cur, aggs, ts, mono);
    let c = m.layer_event(Layer::Internet, cur, aggs, ts, mono);
    let d = m.layer_event(Layer::Dns, cur, aggs, ts, mono);
    let e = m.layer_catch_up(Layer::Lan, cur, ts, mono);
    let f = m.layer_catch_up(Layer::Gateway, cur, ts, mono);
    let g = m.layer_catch_up(Layer::Internet, cur, ts, mono);
    let h = m.layer_catch_up(Layer::Dns, cur, ts, mono);
    if k < changes.len() {
        four_events_of_the_ladder(a, b, c, d, k);
    } else {
        four_events_of_the_ladder(e, f, g, h, k - changes.len());
    }
}

/// A host that is settled is told by its event.
proof fn a_settled_host_is_told(
    m: EngineModel,
    log: Seq<LoggedEvent>,
    probed: Seq<TargetModel>,
    lan_down: bool,
    ts: u64,
    mono: u64,
    i: int,
)
    requires
        0 <= i < m.targets.len(),
        m.cfg.targets@[i].layer == Layer::Host,
        probed[i].notified_down == m.targets[i].notified_down,
        tells_host(log, m.cfg.targets@[i].name@, m.targets[i]),
    ensures
        tells_host(
            longer(
                log,
                host_event(m.cfg.targets@[i], m.targets[i].up, probed[i], lan_down, ts, mono),
                ts,
            ),
            m.cfg.targets@[i].name@,
            m.target_after(i, probed, lan_down),
        ),
{
    reveal(tells_host);
    kinds_are_distinct();
    let t = m.cfg.targets@[i];
    let event = host_event(t, m.targets[i].up, probed[i], lan_down, ts, mono);
    perhaps_one_more(log, event, ts, of_host(t.name@));
}

/// The events of the hosts before `n` tell how a host fared.
proof fn hosts_are_told(
    m: EngineModel,
    log: Seq<LoggedEvent>,
    probed: Seq<TargetModel>,
    lan_down: bool,
    ts: u64,
    mono: u64,
    n: int,
    i: int,
)
    requires
        distinct_names(m.cfg.targets@),
        m.targets.len() == m.cfg.targets@.len(),
        n <= m.targets.len(),
        0 <= i < m.targets.len(),
        m.cfg.targets@[i].layer == Layer::Host,
        probed[i].notified_down == m.targets[i].notified_down,
        tells_host(log, m.cfg.targets@[i].name@, m.targets[i]),
    ensures
        tells_host(
            log + recorded(m.host_events(probed, lan_down, ts, mono, n), ts),
            m.cfg.targets@[i].name@,
            if i < n {
                m.target_after(i, probed, lan_down)
            } else {
                m.targets[i]
            },
        ),
    decreases n,
{
    let name = m.cfg.targets@[i].name@;
    let all = log + recorded(m.host_events(probed, lan_down, ts, mono, n), ts);
    if n <= 0 {
        assert(all =~= log);
    } else {
        hosts_are_told(m, log, probed, lan_down, ts, mono, n - 1, i);
        let fewer = log + recorded(m.host_events(probed, lan_down, ts, mono, n - 1), ts);
        let t = m.cfg.targets@[n - 1];
        if t.layer == Layer::Host {
            let event = host_event(t, m.targets[n - 1].up, probed[n - 1], lan_down, ts, mono);
            assert(all =~= longer(fewer, event, ts));
            if i == n - 1 {
                a_settled_host_is_told(m, fewer, probed, lan_down, ts, mono, i);
            } else {
                if i < n - 1 {
                    assert(name != t.name@);
                } else {
                    assert(t.name@ != name);
                }
                others_leave_a_host_told(
                    fewer,
                    listed(event),
                    ts,
                    name,
                    if i < n {
                        m.target_after(i, probed, lan_down)
                    } else {
                        m.targets[i]
                    },
                );
            }
        } else {
            assert(all =~= fewer);
        }
    }
}

/// As the engine runs, the log keeps telling its state: of every ladder layer
/// and every host whether it is down, whether that was announced, and of a
/// layer since when.
pub proof fn the_log_keeps_up(
    m: EngineModel,
    log: Seq<LoggedEvent>,
    ts: u64,
    mono: u64,
    results: Seq<ProbeResult>,
)
    requires
        m.well_formed(),
        distinct_names(m.cfg.targets@),
        tells(log, m),
    ensures
        tells(log + recorded(m.events(ts, mono, results), ts), m.after(ts, mono, results)),
{
    let probed = m.probed(ts, mono, results);
    let cur = m.statuses_after(ts, mono, results);
    let aggs = aggregates(m.cfg, probed);
    let ladder = m.change_events(cur, aggs, ts, mono) + m.overdue_events(cur, ts, mono);
    let lan_down = implied(Layer::Host, cur);
    let hosts = m.host_events(probed, lan_down, ts, mono, probed.len() as int);
    let after = m.after(ts, mono, results);
    let log1 = log + recorded(ladder, ts);
    let log2 = log + recorded(m.events(ts, mono, results), ts);
    recorded_in_three_parts(
        log,
        m.change_events(cur, aggs, ts, mono),
        m.overdue_events(cur, ts, mono),
        hosts,
        ts,
    );
    assert forall|l: Layer|
        l != Layer::Host && (#[trigger] after.layers.at(l)) is Some implies tells_layer(
        log2,
        l,
        after.layers.at(l)->Some_0,
    ) by {
        assert(after.layers.at(l) == m.layer_after(l, cur, ts, mono));
        assert(m.layers.at(l) is Some);
        a_cycle_is_told_of_a_layer(m, log, ts, mono, results, l);
    }
    assert forall|i: int|
        0 <= i < after.targets.len() && after.cfg.targets@[i].layer == Layer::Host implies tells_host(
        log2,
        after.cfg.targets@[i].name@,
        #[trigger] after.targets[i],
    ) by {
        let name = m.cfg.targets@[i].name@;
        assert(tells_host(log, name, m.targets[i]));
        assert forall|k: int| 0 <= k < ladder.len() implies !of_host(name)(
            logged(#[trigger] ladder[k], ts),
        ) by {
            ladder_events_are_of_the_ladder(m, cur, aggs, ts, mono, k);
            if ladder[k].layer.name() == Layer::Host.name() {
                layer_names_are_distinct(ladder[k].layer, Layer::Host);
            }
        }
        others_leave_a_host_told(log, ladder, ts, name, m.targets[i]);
        hosts_are_told(m, log1, probed, lan_down, ts, mono, probed.len() as int, i);
    }
}

/// An engine that starts afresh is told by an empty log.
pub proof fn a_fresh_start_is_told_by_an_empty_log(m: EngineModel, now: u64)
    requires
        m == EngineModel::started(m.cfg, now, None),
    ensures
        tells(Seq::empty(), m),
{
    reveal(tells_layer);
    reveal(tells_host);
}

/// What is recorded of some cycles.
pub open spec fn log_of(m: EngineModel, cycles: Seq<Cycle>) -> Seq<LoggedEvent>
    decreases cycles.len(),
{
    if cycles.len() == 0 {
        Seq::empty()
    } else {
        let c = cycles.last();
        log_of(m, cycles.drop_last()) + recorded(
            m.run(cycles.drop_last()).events(c.ts, c.mono, c.results),
            c.ts,
        )
    }
}

/// Over any run from a fresh start, the log tells the engine's state.
pub proof fn every_run_is_told(m: EngineModel, now: u64, cycles: Seq<Cycle>)
    requires
        m == EngineModel::started(m.cfg, now, None),
        m.well_formed(),
        distinct_names(m.cfg.targets@),
    ensures
        tells(log_of(m, cycles), m.run(cycles)),
    decreases cycles.len(),
{
    if cycles.len() == 0 {
        a_fresh_start_is_told_by_an_empty_log(m, now);
    } else {
        let c = cycles.last();
        every_run_is_told(m, now, cycles.drop_last());
        cycles_keep_the_engine_sound(m, cycles.drop_last());
        the_log_keeps_up(
            m.run(cycles.drop_last()),
            log_of(m, cycles.drop_last()),
            c.ts,
            c.mono,
            c.results,
        );
    }
}

/// Over any run from a fresh start, the events of every ladder layer and every
/// host fit together, and the layer or host is down just where they say so: a
/// "down" begins an outage and an "up" ends it, in turn, and no outage is
/// announced twice.
pub proof fn outages_are_told_in_turn(
    m: EngineModel,
    now: u64,
    cycles: Seq<Cycle>,
    layer: Layer,
    i: int,
)
    requires
        m == EngineModel::started(m.cfg, now, None),
        m.well_formed(),
        distinct_names(m.cfg.targets@),
    ensures
        layer != Layer::Host && m.layers.at(layer) is Some ==> {
            let ls = m.run(cycles).layers.at(layer)->Some_0;
            story(log_of(m, cycles), of_outage(layer)) == (if ls.status == Status::Down {
                Story::Down { announced: ls.notified_down }
            } else {
                Story::Up
            })
        },
        0 <= i < m.targets.len() && m.cfg.targets@[i].layer == Layer::Host ==> {
            let t = m.run(cycles).targets[i];
            story(log_of(m, cycles), of_host(m.cfg.targets@[i].name@)) == (if t.up {
                Story::Up
            } else {
                Story::Down { announced: t.notified_down }
            })
        },
{
    every_run_is_told(m, now, cycles);
    cycles_keep_the_engine_sound(m, cycles);
    reveal(tells_layer);
    reveal(tells_host);
    let after = m.run(cycles);
    if layer != Layer::Host && m.layers.at(layer) is Some {
        assert(has_layer(m.cfg.targets@, layer));
        assert(after.layers.at(layer) is Some);
        assert(tells_layer(log_of(m, cycles), layer, after.layers.at(layer)->Some_0));
    }
    if 0 <= i < m.targets.len() && m.cfg.targets@[i].layer == Layer::Host {
        assert(tells_host(log_of(m, cycles), m.cfg.targets@[i].name@, after.targets[i]));
    }
}

/// A story that is not torn was not torn before.
proof fn stories_stay_torn(log: Seq<LoggedEvent>, p: spec_fn(LoggedEvent) -> bool, n: int)
    requires
        0 <= n <= log.len(),
        story(log, p) != Story::Torn,
    ensures
        story(log.take(n), p) != Story::Torn,
    decreases log.len(),
{
    if n == log.len() {
        assert(log.take(n) =~= log);
    } else {
        assert(log.drop_last().take(n) =~= log.take(n));
        stories_stay_torn(log.drop_last(), p, n);
    }
}

/// An outage lasts, and stays announced, until an "up".
proof fn outages_last(
    log: Seq<LoggedEvent>,
    p: spec_fn(LoggedEvent) -> bool,
    i: int,
    j: int,
)
    requires
        0 <= i <= j <= log.len(),
        story(log.take(j), p) != Story::Torn,
        story(log.take(i), p) is Down,
        forall|k: int| i <= k < j && p(#[trigger] log[k]) ==> log[k].kind != "up"@,
    ensures
        story(log.take(j), p) is Down,
        story(log.take(i), p)->announced ==> story(log.take(j), p)->announced,
    decreases j - i,
{
    if i < j {
        let shorter = log.take(j - 1);
        assert(log.take(j).drop_last() =~= shorter);
        assert(log.take(j).last() == log[j - 1]);
        assert(log.take(j).take(j - 1) =~= shorter);
        stories_stay_torn(log.take(j), p, j - 1);
        outages_last(log, p, i, j - 1);
    }
}

/// What it means that events fit together: between two "down" events there is
/// an "up", and between two "up" events a "down"; between two events that
/// announce an outage, be they "down" or "still_down", there is an "up"; and the
/// first "up" or "still_down" comes after a "down".
pub proof fn fitting_events_alternate(
    log: Seq<LoggedEvent>,
    p: spec_fn(LoggedEvent) -> bool,
    i: int,
    j: int,
)
    requires
        story(log, p) != Story::Torn,
        0 <= j < log.len(),
        p(log[j]),
    ensures
        0 <= i < j && p(log[i]) && log[i].kind == "down"@ && log[j].kind == "down"@ ==> exists|k: int|
            i < k < j && p(#[trigger] log[k]) && log[k].kind == "up"@,
        0 <= i < j && p(log[i]) && reports_down(log[i].kind) && log[i].notified && reports_down(
            log[j].kind,
        ) && log[j].notified ==> exists|k: int|
            i < k < j && p(#[trigger] log[k]) && log[k].kind == "up"@,
        0 <= i < j && p(log[i]) && log[i].kind == "up"@ && log[j].kind == "up"@ ==> exists|k: int|
            i < k < j && p(#[trigger] log[k]) && log[k].kind == "down"@,
        log[j].kind == "up"@ || log[j].kind == "still_down"@ ==> exists|k: int|
            0 <= k < j && p(#[trigger] log[k]) && log[k].kind == "down"@,
{
    kinds_are_distinct();
    stories_stay_torn(log, p, j + 1);
    assert(log.take(j + 1).drop_last() =~= log.take(j));
    assert(log.take(j + 1).last() == log[j]);
    stories_stay_torn(log, p, j);
    if 0 <= i < j && p(log[i]) && reports_down(log[i].kind) && !(exists|k: int|
        i < k < j && p(#[trigger] log[k]) && log[k].kind == "up"@) {
        stories_stay_torn(log, p, i + 1);
        assert(log.take(i + 1).drop_last() =~= log.take(i));
        assert(log.take(i + 1).last() == log[i]);
        outages_last(log, p, i + 1, j);
    }
    if !(exists|k: int| 0 <= k < j && p(#[trigger] log[k]) && log[k].kind == "down"@) {
        without_a_down_it_is_up(log, p, 0, j);
    }
    if 0 <= i < j && p(log[i]) && log[i].kind == "up"@ && !(exists|k: int|
        i < k < j && p(#[trigger] log[k]) && log[k].kind == "down"@) {
        stories_stay_torn(log, p, i + 1);
        assert(log.take(i + 1).drop_last() =~= log.take(i));
        assert(log.take(i + 1).last() == log[i]);
        without_a_down_it_is_up(log, p, i + 1, j);
    }
}

/// What is up stays so until a "down".
proof fn without_a_down_it_is_up(
    log: Seq<LoggedEvent>,
    p: spec_fn(LoggedEvent) -> bool,
    i: int,
    n: int,
)
    requires
        0 <= i <= n <= log.len(),
        story(log.take(i), p) == Story::Up,
        story(log.take(n), p) != Story::Torn,
        forall|k: int| i <= k < n && p(#[trigger] log[k]) ==> log[k].kind != "down"@,
    ensures
        story(log.take(n), p) == Story::Up,
    decreases n - i,
{
    if n > i {
        assert(log.take(n).drop_last() =~= log.take(n - 1));
        assert(log.take(n).last() == log[n - 1]);
        assert(log.take(n).take(n - 1) =~= log.take(n - 1));
        stories_stay_torn(log.take(n), p, n - 1);
        without_a_down_it_is_up(log, p, i, n - 1);
    }
}

/// Whether the engine's judgements fit its counts: a target is down only after
/// as many failures in a row as the threshold says, back only after as many
/// successes, and a ladder layer is down just if no target of it is up.
pub open spec fn judged(m: EngineModel) -> bool {
    &&& m.cfg.fail_threshold >= 1
    &&& m.cfg.recover_threshold >= 1
    &&& forall|i: int|
        0 <= i < m.targets.len() ==> if (#[trigger] m.targets[i]).up {
            m.targets[i].consec_fail < m.cfg.fail_threshold
        } else {
            m.targets[i].consec_ok < m.cfg.recover_threshold
        }
    &&& forall|l: Layer|
        l != Layer::Host && (#[trigger] m.layers.at(l)) is Some ==> (m.layers.at(l)->Some_0.status
            == Status::Down) == !any_up(m.cfg.targets@, m.targets, l)
}

/// A fresh start fits its counts.
pub proof fn a_fresh_start_is_judged(cfg: Config, now: u64)
    requires
        cfg.fail_threshold >= 1,
        cfg.recover_threshold >= 1,
    ensures
        judged(EngineModel::started(cfg, now, None)),
{
    let m = EngineModel::started(cfg, now, None);
    assert forall|l: Layer| l != Layer::Host && (#[trigger] m.layers.at(l)) is Some implies any_up(
        cfg.targets@,
        m.targets,
        l,
    ) by {
        let i = choose|i: int|
            0 <= i < cfg.targets@.len() && (#[trigger] cfg.targets@[i]).layer == l;
        assert(m.targets[i].up);
    }
}

/// A cycle keeps the engine's judgements in line with its counts.
pub proof fn a_cycle_keeps_judgements(m: EngineModel, c: Cycle)
    requires
        m.well_formed(),
        judged(m),
    ensures
        judged(m.next(c)),
{
    let after = m.next(c);
    let probed = m.probed(c.ts, c.mono, c.results);
    let cur = m.statuses_after(c.ts, c.mono, c.results);
    assert forall|i: int| 0 <= i < after.targets.len() implies (#[trigger] after.targets[i]).up
        == probed[i].up && after.targets[i].consec_fail == probed[i].consec_fail
        && after.targets[i].consec_ok == probed[i].consec_ok && (if after.targets[i].up {
        after.targets[i].consec_fail < m.cfg.fail_threshold
    } else {
        after.targets[i].consec_ok < m.cfg.recover_threshold
    }) by {
        assert(if m.targets[i].up {
            m.targets[i].consec_fail < m.cfg.fail_threshold
        } else {
            m.targets[i].consec_ok < m.cfg.recover_threshold
        });
    }
    assert forall|l: Layer| l != Layer::Host && (#[trigger] after.layers.at(l)) is Some implies (
    after.layers.at(l)->Some_0.status == Status::Down) == !any_up(
        m.cfg.targets@,
        after.targets,
        l,
    ) by {
        assert(after.layers.at(l) == m.layer_after(l, cur, c.ts, c.mono));
        assert(m.layers.at(l) is Some);
        assert(has_layer(m.cfg.targets@, l));
        let targets = m.cfg.targets@;
        assert forall|i: int|
            0 <= i < targets.len() && (#[trigger] targets[i]).layer == l implies probed[i].up
            == after.targets[i].up by {
            assert(after.targets[i].up == probed[i].up);
        }
        assert(any_up(targets, probed, l) == any_up(targets, after.targets, l));
    }
}

/// How many samples at the end are all successes, or all failures.
pub open spec fn trailing(samples: Seq<bool>, ok: bool) -> nat
    decreases samples.len(),
{
    if samples.len() == 0 || samples.last() != ok {
        0
    } else {
        trailing(samples.drop_last(), ok) + 1
    }
}

/// Whether a target's samples tell its streak: its failures, and while it is
/// down its successes.
pub open spec fn counts(samples: Seq<bool>, t: TargetModel) -> bool {
    &&& t.consec_fail == (if trailing(samples, false) <= u32::MAX {
        trailing(samples, false)
    } else {
        u32::MAX as nat
    })
    &&& !t.up ==> t.consec_ok == (if trailing(samples, true) <= u32::MAX {
        trailing(samples, true)
    } else {
        u32::MAX as nat
    })
}

/// As the engine runs, a target's samples keep telling its streak.
pub proof fn the_samples_keep_count(m: EngineModel, c: Cycle, i: int, samples: Seq<bool>)
    requires
        m.well_formed(),
        judged(m),
        0 <= i < m.targets.len(),
        counts(samples, m.targets[i]),
    ensures
        counts(
            if i < c.results.len() {
                samples.push(c.results[i].ok)
            } else {
                samples
            },
            m.next(c).targets[i],
        ),
{
    let probed = m.probed(c.ts, c.mono, c.results);
    let after = m.next(c).targets[i];
    assert(after.up == probed[i].up && after.consec_fail == probed[i].consec_fail
        && after.consec_ok == probed[i].consec_ok);
    if i < c.results.len() {
        let ok = c.results[i].ok;
        assert(samples.push(ok).drop_last() =~= samples);
        assert(samples.push(ok).last() == ok);
        assert(probed[i] == m.targets[i].probed(c.results[i], m.cfg, c.ts, c.mono));
    }
}

/// Whether what is stored of a target agrees with its state: its streak, and
/// that it was sampled at all if there is more to it than being up.
pub open spec fn agrees(stored: Option<TargetResume>, t: TargetModel) -> bool {
    match stored {
        Some(r) => t.consec_fail == clipped(r.fails) && (!t.up ==> t.consec_ok == clipped(r.oks)),
        None => t.up && t.consec_fail == 0,
    }
}

/// The outage of a ladder layer can be read back from a log that tells the
/// engine's state.
pub proof fn outages_are_read_back(m: EngineModel, log: Seq<LoggedEvent>, layer: Layer)
    requires
        tells(log, m),
        ordered(log),
        up_to(log, i64::MAX as u64),
        layer != Layer::Host,
        m.layers.at(layer) is Some,
    ensures
        ({
            let ls = m.layers.at(layer)->Some_0;
            outage_in(log, layer) == (if ls.status == Status::Down {
                Some((ls.since, ls.notified_down))
            } else {
                None
            })
        }),
{
    reveal(tells_layer);
    kinds_are_distinct();
    latest_is_logged(log, of_outage(layer), i64::MAX as u64);
    latest_is_logged(log, of_kind(layer, "down"@), i64::MAX as u64);
    assert(tells_layer(log, layer, m.layers.at(layer)->Some_0));
}

/// Whether a host is down, and announced as such, can be read back from a log
/// that tells the engine's state.
pub proof fn host_outages_are_read_back(m: EngineModel, log: Seq<LoggedEvent>, i: int)
    requires
        tells(log, m),
        ordered(log),
        0 <= i < m.targets.len(),
        m.cfg.targets@[i].layer == Layer::Host,
    ensures
        ({
            let outage = host_outage_in(log, m.cfg.targets@[i].name@);
            &&& outage is Some == !m.targets[i].up
            &&& outage is Some ==> outage->Some_0.1 == m.targets[i].notified_down
        }),
{
    reveal(tells_host);
    kinds_are_distinct();
    assert(tells_host(log, m.cfg.targets@[i].name@, m.targets[i]));
}

/// What a restart leaves as it was: every ladder layer is down just where it
/// was, since the same time and announced or not; every host likewise; and no
/// target that was up is down.
pub open spec fn carries_on(m: EngineModel, again: EngineModel) -> bool {
    &&& again.cfg == m.cfg
    &&& again.targets.len() == m.targets.len()
    &&& forall|l: Layer|
        l != Layer::Host && (#[trigger] m.layers.at(l)) is Some ==> {
            let before = m.layers.at(l)->Some_0;
            let after = again.layers.at(l)->Some_0;
            &&& again.layers.at(l) is Some
            &&& (after.status == Status::Down) == (before.status == Status::Down)
            &&& before.status == Status::Down ==> after.since == before.since
                && after.notified_down == before.notified_down
        }
    &&& forall|i: int|
        0 <= i < m.targets.len() ==> {
            let before = #[trigger] m.targets[i];
            let after = again.targets[i];
            &&& before.up ==> after.up
            &&& after.consec_fail == before.consec_fail
            &&& !after.up ==> after.consec_ok == before.consec_ok
            &&& m.cfg.targets@[i].layer == Layer::Host ==> after.up == before.up
                && after.notified_down == before.notified_down
        }
}

/// A restart soon enough after the last cycle leaves the story as it was, so
/// that no outage is counted twice, loses its duration or goes without its
/// recovery: layers, hosts and streaks carry on, the log still tells the state,
/// and the judgements still fit their counts.
pub proof fn a_restart_keeps_the_story(
    m: EngineModel,
    log: Seq<LoggedEvent>,
    now: u64,
    latest_cycle: Option<u64>,
    stored: Seq<Option<TargetResume>>,
    outages: LayerMap<(u64, bool)>,
    resume: Option<ResumeState>,
)
    requires
        m.well_formed(),
        judged(m),
        tells(log, m),
        ordered(log),
        up_to(log, i64::MAX as u64),
        is_recent(latest_cycle, now, m.cfg.interval_secs),
        forall|l: Layer|
            l != Layer::Host ==> #[trigger] outages.at(l) == outage_in(log, l),
        stored.len() == m.targets.len(),
        forall|i: int| 0 <= i < stored.len() ==> agrees(#[trigger] stored[i], m.targets[i]),
        forall|i: int|
            0 <= i < stored.len() && m.cfg.targets@[i].layer == Layer::Host && (
            #[trigger] stored[i]) is Some ==> stored[i]->Some_0.on_record == host_outage_in(
                log,
                m.cfg.targets@[i].name@,
            ),
        resumes(m.cfg, now, latest_cycle, stored, outages, resume),
    ensures
        ({
            let again = EngineModel::started(m.cfg, now, resume);
            &&& carries_on(m, again)
            &&& tells(log, again)
            &&& judged(again)
            &&& forall|i: int| 0 <= i < stored.len() ==> agrees(#[trigger] stored[i], again.targets[i])
        }),
{
    let again = EngineModel::started(m.cfg, now, resume);
    assert forall|l: Layer| l != Layer::Host && (#[trigger] m.layers.at(l)) is Some implies {
        let before = m.layers.at(l)->Some_0;
        let after = again.layers.at(l)->Some_0;
        &&& again.layers.at(l) is Some
        &&& (after.status == Status::Down) == (before.status == Status::Down)
        &&& before.status == Status::Down ==> after.since == before.since && after.notified_down
            == before.notified_down
        &&& tells_layer(log, l, after)
    } by {
        a_layer_carries_on(m, log, now, latest_cycle, stored, outages, resume, l);
    }
    assert forall|l: Layer|
        l != Layer::Host && (#[trigger] again.layers.at(l)) is Some implies tells_layer(
        log,
        l,
        again.layers.at(l)->Some_0,
    ) by {
        assert(has_layer(m.cfg.targets@, l));
        assert(m.layers.at(l) is Some);
    }
    assert forall|i: int| 0 <= i < m.targets.len() implies target_carries_on(
        m,
        again,
        log,
        stored,
        i,
    ) by {
        a_target_carries_on(m, log, now, latest_cycle, stored, outages, resume, i);
    }
    assert forall|i: int|
        0 <= i < again.targets.len() && again.cfg.targets@[i].layer == Layer::Host implies tells_host(
        log,
        again.cfg.targets@[i].name@,
        #[trigger] again.targets[i],
    ) by {
        assert(target_carries_on(m, again, log, stored, i));
    }
    assert forall|i: int| 0 <= i < again.targets.len() implies if (#[trigger] again.targets[i]).up {
        again.targets[i].consec_fail < m.cfg.fail_threshold
    } else {
        again.targets[i].consec_ok < m.cfg.recover_threshold
    } by {
        assert(target_carries_on(m, again, log, stored, i));
    }
    assert forall|l: Layer| l != Layer::Host && (#[trigger] again.layers.at(l)) is Some implies (
    again.layers.at(l)->Some_0.status == Status::Down) == !any_up(
        m.cfg.targets@,
        again.targets,
        l,
    ) by {
        assert(has_layer(m.cfg.targets@, l));
        assert(m.layers.at(l) is Some);
        let targets = m.cfg.targets@;
        let down = m.layers.at(l)->Some_0.status == Status::Down;
        assert(down == !any_up(targets, m.targets, l));
        if down {
            assert forall|i: int|
                0 <= i < targets.len() && (#[trigger] targets[i]).layer == l implies !again.targets[i].up by {
                assert(target_carries_on(m, again, log, stored, i));
                assert(!m.targets[i].up);
            }
        } else {
            let i = choose|i: int|
                0 <= i < targets.len() && (#[trigger] targets[i]).layer == l && m.targets[i].up;
            assert(target_carries_on(m, again, log, stored, i));
            assert(again.targets[i].up);
        }
    }
    assert forall|i: int| 0 <= i < m.targets.len() implies {
        let before = #[trigger] m.targets[i];
        let after = again.targets[i];
        &&& before.up ==> after.up
        &&& after.consec_fail == before.consec_fail
        &&& !after.up ==> after.consec_ok == before.consec_ok
        &&& m.cfg.targets@[i].layer == Layer::Host ==> after.up == before.up
            && after.notified_down == before.notified_down
    } by {
        assert(target_carries_on(m, again, log, stored, i));
    }
    assert forall|i: int| 0 <= i < stored.len() implies agrees(
        #[trigger] stored[i],
        again.targets[i],
    ) by {
        assert(target_carries_on(m, again, log, stored, i));
    }
}

/// What a restart leaves of one target.
spec fn target_carries_on(
    m: EngineModel,
    again: EngineModel,
    log: Seq<LoggedEvent>,
    stored: Seq<Option<TargetResume>>,
    i: int,
) -> bool {
    let t = m.cfg.targets@[i];
    let before = m.targets[i];
    let after = again.targets[i];
    &&& before.up ==> after.up
    &&& !before.up && (t.layer == Layer::Host || m.layers.at(t.layer)->Some_0.status
        == Status::Down) ==> !after.up
    &&& after.consec_fail == before.consec_fail
    &&& !after.up ==> after.consec_ok == before.consec_ok
    &&& if after.up {
        after.consec_fail < m.cfg.fail_threshold
    } else {
        after.consec_ok < m.cfg.recover_threshold
    }
    &&& t.layer == Layer::Host ==> after.notified_down == before.notified_down && tells_host(
        log,
        t.name@,
        after,
    )
    &&& agrees(stored[i], after)
}

proof fn a_layer_carries_on(
    m: EngineModel,
    log: Seq<LoggedEvent>,
    now: u64,
    latest_cycle: Option<u64>,
    stored: Seq<Option<TargetResume>>,
    outages: LayerMap<(u64, bool)>,
    resume: Option<ResumeState>,
    l: Layer,
)
    requires
        m.well_formed(),
        tells(log, m),
        ordered(log),
        up_to(log, i64::MAX as u64),
        is_recent(latest_cycle, now, m.cfg.interval_secs),
        outages.at(l) == outage_in(log, l),
        resumes(m.cfg, now, latest_cycle, stored, outages, resume),
        l != Layer::Host,
        m.layers.at(l) is Some,
    ensures
        ({
            let before = m.layers.at(l)->Some_0;
            let again = EngineModel::started(m.cfg, now, resume).layers.at(l);
            let after = again->Some_0;
            &&& again is Some
            &&& (after.status == Status::Down) == (before.status == Status::Down)
            &&& before.status == Status::Down ==> after.since == before.since
                && after.notified_down == before.notified_down
            &&& tells_layer(log, l, after)
            &&& resumed_layer(m.cfg.targets@, outages, l) is Some == (before.status
                == Status::Down)
        }),
{
    let again = EngineModel::started(m.cfg, now, resume);
    assert(has_layer(m.cfg.targets@, l));
    outages_are_read_back(m, log, l);
    assert(again.layers.at(l) == Some(EngineModel::layer_at_start(now, resume, l)));
    match resume {
        Some(r) => {
            assert(r.layers.at(l) == resumed_layer(m.cfg.targets@, outages, l));
        },
        None => {
            assert(resumed_layer(m.cfg.targets@, outages, l) is None);
        },
    }
    reveal(tells_layer);
    assert(tells_layer(log, l, m.layers.at(l)->Some_0));
}

proof fn a_target_carries_on(
    m: EngineModel,
    log: Seq<LoggedEvent>,
    now: u64,
    latest_cycle: Option<u64>,
    stored: Seq<Option<TargetResume>>,
    outages: LayerMap<(u64, bool)>,
    resume: Option<ResumeState>,
    i: int,
)
    requires
        m.well_formed(),
        judged(m),
        tells(log, m),
        ordered(log),
        up_to(log, i64::MAX as u64),
        is_recent(latest_cycle, now, m.cfg.interval_secs),
        forall|l: Layer|
            l != Layer::Host ==> #[trigger] outages.at(l) == outage_in(log, l),
        stored.len() == m.targets.len(),
        0 <= i < stored.len(),
        agrees(stored[i], m.targets[i]),
        m.cfg.targets@[i].layer == Layer::Host && stored[i] is Some
            ==> stored[i]->Some_0.on_record == host_outage_in(log, m.cfg.targets@[i].name@),
        resumes(m.cfg, now, latest_cycle, stored, outages, resume),
    ensures
        target_carries_on(m, EngineModel::started(m.cfg, now, resume), log, stored, i),
{
    let again = EngineModel::started(m.cfg, now, resume);
    let t = m.cfg.targets@[i];
    let before = m.targets[i];
    let wanted = resumed_targets(m.cfg, stored, outages);
    assert(wanted[i] == resumed_target(m.cfg, t, stored[i], outages));
    assert(again.targets[i] == EngineModel::target_at_start(resume, i));
    assert(if before.up {
        before.consec_fail < m.cfg.fail_threshold
    } else {
        before.consec_ok < m.cfg.recover_threshold
    });
    if t.layer == Layer::Host {
        host_outages_are_read_back(m, log, i);
        assert(tells_host(log, t.name@, before));
    } else {
        assert(has_layer(m.cfg.targets@, t.layer));
        assert(m.layers.at(t.layer) is Some);
        assert(outages.at(t.layer) == outage_in(log, t.layer));
        a_layer_carries_on(m, log, now, latest_cycle, stored, outages, resume, t.layer);
        if before.up {
            assert(any_up(m.cfg.targets@, m.targets, t.layer));
        }
    }
    match resume {
        Some(r) => {
            assert(r.targets@[i] == wanted[i]);
        },
        None => {
            assert(wanted[i].up && wanted[i].fails == 0);
        },
    }
    reveal(tells_host);
}

/// Failures short of the threshold announce nothing, whether they come before a
/// restart or after it: a target that had not been judged down is up after a
/// restart, and while it has not failed as often in a row as the threshold says,
/// counting on from before the restart, it stays up, and there is no "down" or
/// "still_down" event of it, if it is a host, or of its layer.
pub proof fn short_failures_announce_nothing(
    cfg: Config,
    now: u64,
    latest_cycle: Option<u64>,
    stored: Seq<Option<TargetResume>>,
    outages: LayerMap<(u64, bool)>,
    resume: Option<ResumeState>,
    cycles: Seq<Cycle>,
    last: Cycle,
    i: int,
    e: EventModel,
)
    requires
        cfg.window_fits(),
        distinct_names(cfg.targets@),
        0 <= i < cfg.targets@.len(),
        stored.len() == cfg.targets@.len(),
        stored[i] is Some ==> !was_judged_down(
            cfg,
            cfg.targets@[i],
            stored[i]->Some_0,
            outages,
        ),
        resumes(cfg, now, latest_cycle, stored, outages, resume),
        forall|k: int|
            0 <= k <= cycles.len() ==> (#[trigger] EngineModel::started(cfg, now, resume).run(
                cycles.take(k),
            ).targets[i]).consec_fail < cfg.fail_threshold,
        EngineModel::started(cfg, now, resume).run(cycles).next(last).targets[i].consec_fail
            < cfg.fail_threshold,
        EngineModel::started(cfg, now, resume).run(cycles).events(
            last.ts,
            last.mono,
            last.results,
        ).contains(e),
        reports_down(e.kind),
    ensures
        EngineModel::started(cfg, now, resume).run(cycles).next(last).targets[i].up,
        cfg.targets@[i].layer == Layer::Host ==> e.target != Some(cfg.targets@[i].name@),
        cfg.targets@[i].layer != Layer::Host ==> e.layer != cfg.targets@[i].layer,
{
    kinds_are_distinct();
    let m = EngineModel::started(cfg, now, resume);
    a_start_is_well_formed(cfg, now, resume);
    assert(m.targets[i] == EngineModel::target_at_start(resume, i));
    if resume is Some {
        assert(resume->Some_0.targets@[i] == resumed_targets(cfg, stored, outages)[i]);
    }
    let during = m.run(cycles);
    cycles_keep_the_engine_sound(m, cycles);
    short_failures_leave_a_target_up(m, cycles, i);
    let probed = during.probed(last.ts, last.mono, last.results);
    let cur = during.statuses_after(last.ts, last.mono, last.results);
    let after = during.next(last).targets[i];
    assert(after.consec_fail == probed[i].consec_fail && after.up == probed[i].up);
    assert(probed[i].up);
    events_have_a_source(during, last.ts, last.mono, last.results, e);
    let t = cfg.targets@[i];
    if t.layer != Layer::Host && e.layer == t.layer {
        assert(any_up(cfg.targets@, probed, t.layer));
        assert(cur.at(t.layer) is Some ==> cur.at(t.layer)->Some_0 != Status::Down);
        assert(has_layer(cfg.targets@, t.layer));
        assert(false);
    }
    if t.layer == Layer::Host && e.target == Some(t.name@) {
        let j = choose|j: int| during.is_of_host(last.ts, last.mono, last.results, j, e);
        assert(during.is_of_host(last.ts, last.mono, last.results, j, e));
        assert(cfg.targets@[j].name@ == t.name@);
        if j < i {
            assert(cfg.targets@[j].name@ != cfg.targets@[i].name@);
        } else if i < j {
            assert(cfg.targets@[i].name@ != cfg.targets@[j].name@);
        }
        assert(false);
    }
}

proof fn a_start_is_well_formed(cfg: Config, now: u64, resume: Option<ResumeState>)
    requires
        cfg.window_fits(),
    ensures
        EngineModel::started(cfg, now, resume).well_formed(),
{
    let m = EngineModel::started(cfg, now, resume);
    assert forall|l: Layer| (#[trigger] m.layers.at(l)) is Some <==> has_layer(
        cfg.targets@,
        l,
    ) by {}
}

proof fn short_failures_leave_a_target_up(m: EngineModel, cycles: Seq<Cycle>, i: int)
    requires
        m.well_formed(),
        0 <= i < m.targets.len(),
        m.targets[i].up,
        forall|k: int|
            0 <= k <= cycles.len() ==> (#[trigger] m.run(cycles.take(k)).targets[i]).consec_fail
                < m.cfg.fail_threshold,
    ensures
        m.run(cycles).targets[i].up,
    decreases cycles.len(),
{
    if cycles.len() > 0 {
        let c = cycles.last();
        let shorter = cycles.drop_last();
        assert forall|k: int| 0 <= k <= shorter.len() implies (#[trigger] m.run(
            shorter.take(k),
        ).targets[i]).consec_fail < m.cfg.fail_threshold by {
            assert(shorter.take(k) =~= cycles.take(k));
            assert(m.run(cycles.take(k)).targets[i].consec_fail < m.cfg.fail_threshold);
        }
        short_failures_leave_a_target_up(m, shorter, i);
        cycles_keep_the_engine_sound(m, shorter);
        assert(cycles.take(cycles.len() as int) =~= cycles);
        assert(m.run(cycles.take(cycles.len() as int)).targets[i].consec_fail
            < m.cfg.fail_threshold);
        let before = m.run(shorter);
        let probed = before.probed(c.ts, c.mono, c.results);
        assert(m.run(cycles).targets[i].up == probed[i].up);
        assert(m.run(cycles).targets[i].consec_fail == probed[i].consec_fail);
    }
}

/// The recovery of a layer that is resumed as down is told with its whole
/// duration, from before the restart, by the wall clock.
pub proof fn a_resumed_outage_keeps_its_duration(
    cfg: Config,
    now: u64,
    resume: ResumeState,
    cycles: Seq<Cycle>,
    last: Cycle,
    layer: Layer,
)
    requires
        cfg.window_fits(),
        layer != Layer::Host,
        resume.layers.at(layer) is Some,
        EngineModel::started(cfg, now, Some(resume)).stays(cycles, layer, Status::Down),
        EngineModel::started(cfg, now, Some(resume)).run(cycles).next(last).layers.at(
            layer,
        )->Some_0.status != Status::Down,
    ensures
        ({
            let during = EngineModel::started(cfg, now, Some(resume)).run(cycles);
            let announced = during.layers.at(layer)->Some_0.notified_down && !implied(
                layer,
                during.statuses_after(last.ts, last.mono, last.results),
            );
            let lasted = elapsed(resume.layers.at(layer)->Some_0.down_since, last.ts);
            during.events(last.ts, last.mono, last.results).contains(
                up_event(layer, announced, lasted),
            )
        }),
        resume.layers.at(layer)->Some_0.down_since <= last.ts ==> exists|e: EventModel|
            #[trigger] EngineModel::started(cfg, now, Some(resume)).run(cycles).events(
                last.ts,
                last.mono,
                last.results,
            ).contains(e) && e.kind == "up"@ && e.layer == layer && e.target is None
                && e.duration_secs is Some && resume.layers.at(layer)->Some_0.down_since
                + e.duration_secs->Some_0 == last.ts,
{
    let m = EngineModel::started(cfg, now, Some(resume));
    a_start_is_well_formed(cfg, now, Some(resume));
    let during = m.run(cycles);
    a_lasting_status_keeps_its_start(m, cycles, layer, Status::Down);
    cycles_keep_the_engine_sound(m, cycles);
    let cur = during.statuses_after(last.ts, last.mono, last.results);
    assert(during.next(last).layers.at(layer) == during.layer_after(
        layer,
        cur,
        last.ts,
        last.mono,
    ));
    let ls = during.layers.at(layer)->Some_0;
    let e = up_event(
        layer,
        ls.notified_down && !implied(layer, cur),
        ls.lasted(last.ts, last.mono),
    );
    assert(during.is_change(last.ts, last.mono, last.results, layer, e));
    sources_have_their_event(during, last.ts, last.mono, last.results, e);
}

/// The recovery of a host that is resumed as down is told with its whole
/// duration, from when its failures or its outage on record began, whichever
/// was earlier, by the wall clock.
pub proof fn a_resumed_host_outage_keeps_its_duration(
    cfg: Config,
    now: u64,
    latest_cycle: Option<u64>,
    stored: Seq<Option<TargetResume>>,
    outages: LayerMap<(u64, bool)>,
    resume: ResumeState,
    cycles: Seq<Cycle>,
    last: Cycle,
    i: int,
)
    requires
        cfg.window_fits(),
        stored.len() == cfg.targets@.len(),
        resumes(cfg, now, latest_cycle, stored, outages, Some(resume)),
        0 <= i < cfg.targets@.len(),
        cfg.targets@[i].layer == Layer::Host,
        stored[i] is Some,
        stored[i]->Some_0.on_record is Some,
        forall|k: int|
            0 <= k <= cycles.len() ==> !(#[trigger] EngineModel::started(
                cfg,
                now,
                Some(resume),
            ).run(cycles.take(k)).targets[i]).up,
        EngineModel::started(cfg, now, Some(resume)).run(cycles).next(last).targets[i].up,
    ensures
        down_from(stored[i]->Some_0) is Some,
        down_from(stored[i]->Some_0)->Some_0 <= stored[i]->Some_0.on_record->Some_0.0,
        ({
            let during = EngineModel::started(cfg, now, Some(resume)).run(cycles);
            exists|e: EventModel|
                #[trigger] during.events(last.ts, last.mono, last.results).contains(e) && e.kind
                    == "up"@ && e.target == Some(cfg.targets@[i].name@) && e.duration_secs == Some(
                    elapsed(down_from(stored[i]->Some_0)->Some_0, last.ts),
                ) && e.notify == (during.targets[i].notified_down && !implied(
                    Layer::Host,
                    during.statuses_after(last.ts, last.mono, last.results),
                ))
        }),
        ({
            let recorded = stored[i]->Some_0.on_record->Some_0.0;
            let began = match stored[i]->Some_0.down_since {
                Some(failing) if failing < recorded => failing,
                _ => recorded,
            };
            began <= last.ts ==> exists|e: EventModel|
                #[trigger] EngineModel::started(cfg, now, Some(resume)).run(cycles).events(
                    last.ts,
                    last.mono,
                    last.results,
                ).contains(e) && e.kind == "up"@ && e.layer == Layer::Host && e.target == Some(
                    cfg.targets@[i].name@,
                ) && e.duration_secs is Some && began + e.duration_secs->Some_0 == last.ts
        }),
{
    let m = EngineModel::started(cfg, now, Some(resume));
    a_start_is_well_formed(cfg, now, Some(resume));
    let during = m.run(cycles);
    cycles_keep_the_engine_sound(m, cycles);
    a_lasting_outage_keeps_its_start(m, cycles, i);
    assert(cycles.take(0) =~= Seq::<Cycle>::empty());
    assert(!m.run(cycles.take(0)).targets[i].up);
    assert(m.targets[i] == EngineModel::target_at_start(Some(resume), i));
    assert(resume.targets@[i] == resumed_targets(cfg, stored, outages)[i]);
    let probed = during.probed(last.ts, last.mono, last.results);
    let lan_down = implied(
        Layer::Host,
        during.statuses_after(last.ts, last.mono, last.results),
    );
    assert(during.next(last).targets[i] == during.target_after(i, probed, lan_down));
    let e = host_event(
        cfg.targets@[i],
        during.targets[i].up,
        probed[i],
        lan_down,
        last.ts,
        last.mono,
    )->Some_0;
    assert(during.is_of_host(last.ts, last.mono, last.results, i, e));
    sources_have_their_event(during, last.ts, last.mono, last.results, e);
}

} // verus!
