//! What is shown: the cards of a snapshot, the verdict, the words of events, and
//! the charts and tiles of the dashboard.

use crate::binary64::{magnitudes_are_ordered, ordered_bits, Binary64};
use crate::config::{Config, Target, Tile};
use crate::engine::EngineModel;
use crate::events::{
    duration_text, events_of, latency_text, percent_text, PendingEvent,
};
use crate::ladder::{degraded_event, down_event, still_down_event};
use crate::laws_events::{a_cycle_settles_the_statuses, rank_of};
use crate::laws_numbers::hours_are_in_seconds;
use crate::laws_targets::{a_layer_is_measured_by_its_own_targets, least_of_own};
use crate::layer::{Layer, LayerMap, Status};
use crate::notify::headers_of;
use crate::probes::ProbeResult;
use crate::snapshot::{
    layer_snaps_of, verdict_on, verdict_text, LayerSnap, TargetSnap, TargetSnapModel,
};
use crate::status::{aggregates, has_layer, models_of, LayerAgg};
use crate::store::{placeholders, HistoryRow};
use crate::target::{TargetModel, TargetState};
use crate::web::{chart_hours, chart_span, internet_names, points_of, window_text, Point};
use vstd::arithmetic::power2::*;
use vstd::prelude::*;

verus! {

/// The places of a layer's targets in the configuration, in order.
pub open spec fn own_places(targets: Seq<Target>, layer: Layer) -> Seq<int> {
    Seq::new(targets.len(), |i: int| i).filter(|i: int| targets[i].layer == layer)
}

/// Whether a shown target is the configured one in the given state: its name,
/// whether it is up, the latency of its latest probe and its loss.
pub open spec fn shows_target(shown: TargetSnapModel, t: Target, st: TargetModel) -> bool {
    &&& shown.name == t.name@
    &&& shown.up == st.up
    &&& st.window.len() == 0 ==> shown.last_ms is None
    &&& st.window.len() > 0 ==> shown.last_ms == st.window[st.window.len() - 1]
    &&& shown.loss_pct == st.loss()
}

proof fn places_grow(targets: Seq<Target>, layer: Layer, n: int)
    requires
        0 < n <= targets.len(),
    ensures
        own_places(targets.take(n), layer) == (if targets[n - 1].layer == layer {
            own_places(targets.take(n - 1), layer).push(n - 1)
        } else {
            own_places(targets.take(n - 1), layer)
        }),
{
    reveal(Seq::filter);
    let own = |i: int| targets.take(n)[i].layer == layer;
    let own_before = |i: int| targets.take(n - 1)[i].layer == layer;
    let all = Seq::new(targets.take(n).len(), |i: int| i);
    let before = Seq::new(targets.take(n - 1).len(), |i: int| i);
    assert(all.drop_last() =~= before);
    assert(targets.take(n)[n - 1] == targets[n - 1]);
    assert(before.filter(own) == before.filter(own_before)) by {
        same_filter(before, own, own_before);
    }
}

proof fn same_filter(s: Seq<int>, p: spec_fn(int) -> bool, q: spec_fn(int) -> bool)
    requires
        forall|k: int| 0 <= k < s.len() ==> p(#[trigger] s[k]) == q(s[k]),
    ensures
        s.filter(p) == s.filter(q),
    decreases s.len(),
{
    reveal(Seq::filter);
    if s.len() > 0 {
        assert forall|k: int| 0 <= k < s.drop_last().len() implies p(#[trigger] s.drop_last()[k])
            == q(s.drop_last()[k]) by {
            assert(s.drop_last()[k] == s[k]);
        }
        same_filter(s.drop_last(), p, q);
        assert(p(s[s.len() - 1]) == q(s[s.len() - 1]));
    }
}

proof fn cards_list_targets(m: EngineModel, layer: Layer, n: int)
    requires
        0 <= n <= m.cfg.targets@.len(),
    ensures
        ({
            let shown = m.target_snaps(layer, n);
            let own = own_places(m.cfg.targets@.take(n), layer);
            &&& shown.len() == own.len()
            &&& forall|k: int|
                0 <= k < own.len() ==> shows_target(
                    #[trigger] shown[k],
                    m.cfg.targets@[own[k]],
                    m.targets[own[k]],
                )
        }),
    decreases n,
{
    if n > 0 {
        cards_list_targets(m, layer, n - 1);
        places_grow(m.cfg.targets@, layer, n);
    } else {
        reveal(Seq::filter);
        assert(own_places(m.cfg.targets@.take(0), layer) =~= Seq::<int>::empty());
    }
}

/// A layer has one card, once it has been measured, and no card before. The card
/// bears the layer's name and status, and lists the layer's own targets, all of
/// them and in order, each with its own measurements.
pub proof fn a_card_shows_its_layer(m: EngineModel, layer: Layer)
    requires
        m.well_formed(),
    ensures
        m.layer_snap(layer).len() == (if m.layers.at(layer) is Some && m.aggs.at(layer) is Some {
            1int
        } else {
            0
        }),
        m.layer_snap(layer).len() > 0 ==> ({
            let card = m.layer_snap(layer)[0];
            let own = own_places(m.cfg.targets@, layer);
            &&& card.layer == layer
            &&& card.label == layer.title()
            &&& card.status == m.layers.at(layer)->Some_0.status
            &&& card.since == m.layers.at(layer)->Some_0.since
            &&& card.targets.len() == own.len()
            &&& forall|k: int|
                0 <= k < own.len() ==> shows_target(
                    #[trigger] card.targets[k],
                    m.cfg.targets@[own[k]],
                    m.targets[own[k]],
                )
        }),
{
    let n = m.cfg.targets@.len() as int;
    cards_list_targets(m, layer, n);
    assert(m.cfg.targets@.take(n) =~= m.cfg.targets@);
}

/// After a cycle, the card of a layer of the ladder shows as its loss the least
/// loss among its targets, and as its latency the least median among them.
/// That of the host layer shows neither.
pub proof fn a_card_shows_the_least(
    m: EngineModel,
    ts: u64,
    mono: u64,
    results: Seq<ProbeResult>,
    layer: Layer,
)
    requires
        m.well_formed(),
    ensures
        ({
            let a = m.after(ts, mono, results);
            &&& a.layer_snap(layer).len() == (if exists|i: int|
                0 <= i < m.cfg.targets@.len() && (#[trigger] m.cfg.targets@[i]).layer == layer {
                1int
            } else {
                0
            })
            &&& a.layer_snap(layer).len() > 0 && layer != Layer::Host ==> least_of_own(
                a.layer_snap(layer)[0].loss_pct,
                m.cfg.targets@,
                layer,
                |i: int| a.targets[i].loss(),
            )
            &&& a.layer_snap(layer).len() > 0 && layer != Layer::Host ==> least_of_own(
                a.layer_snap(layer)[0].latency_ms,
                m.cfg.targets@,
                layer,
                |i: int| a.targets[i].median(),
            )
            &&& a.layer_snap(layer).len() > 0 && layer == Layer::Host ==> a.layer_snap(
                layer,
            )[0].loss_pct is None && a.layer_snap(layer)[0].latency_ms is None
        }),
{
    let a = m.after(ts, mono, results);
    let probed = m.probed(ts, mono, results);
    a_cycle_settles_the_statuses(m, ts, mono, results);
    a_layer_is_measured_by_its_own_targets(m.cfg, probed, layer);
    assert(m.layers.at(layer) is Some <==> has_layer(m.cfg.targets@, layer));
    assert(a.layers.at(layer) is Some <==> m.layers.at(layer) is Some);
    assert(a.aggs.at(layer) == aggregates(m.cfg, probed).at(layer));
    assert forall|i: int| 0 <= i < m.cfg.targets@.len() implies (#[trigger] a.targets[i]).window
        == probed[i].window by {}
    if a.layer_snap(layer).len() > 0 && layer != Layer::Host {
        let targets = m.cfg.targets@;
        let agg = a.aggs.at(layer)->Some_0;
        same_measures(
            agg.loss_pct,
            targets,
            layer,
            |i: int| probed[i].loss(),
            |i: int| a.targets[i].loss(),
        );
        same_measures(
            agg.latency_ms,
            targets,
            layer,
            |i: int| probed[i].median(),
            |i: int| a.targets[i].median(),
        );
    }
}

proof fn same_measures(
    least: Option<Binary64>,
    targets: Seq<Target>,
    layer: Layer,
    f: spec_fn(int) -> Option<Binary64>,
    g: spec_fn(int) -> Option<Binary64>,
)
    requires
        least_of_own(least, targets, layer, f),
        forall|i: int| 0 <= i < targets.len() ==> #[trigger] f(i) == g(i),
    ensures
        least_of_own(least, targets, layer, g),
{
    if least is Some {
        let i = choose|i: int|
            0 <= i < targets.len() && (#[trigger] targets[i]).layer == layer && f(i) == least;
        assert(targets[i].layer == layer && f(i) == g(i));
    }
    assert forall|i: int|
        0 <= i < targets.len() && (#[trigger] targets[i]).layer == layer implies f(i) == g(i) by {}
}

/// With a single target in a layer of the ladder, the layer's card shows that
/// target's own loss and median, and its loss is the one shown for the target.
pub proof fn a_card_of_one_shows_that_one(
    m: EngineModel,
    ts: u64,
    mono: u64,
    results: Seq<ProbeResult>,
    layer: Layer,
    only: int,
)
    requires
        m.well_formed(),
        layer != Layer::Host,
        0 <= only < m.cfg.targets@.len(),
        forall|i: int|
            0 <= i < m.cfg.targets@.len() ==> ((#[trigger] m.cfg.targets@[i]).layer == layer <==> i
                == only),
    ensures
        ({
            let a = m.after(ts, mono, results);
            &&& a.layer_snap(layer).len() == 1
            &&& a.layer_snap(layer)[0].loss_pct == a.targets[only].loss()
            &&& a.layer_snap(layer)[0].latency_ms == a.targets[only].median()
            &&& a.layer_snap(layer)[0].targets.len() == 1
            &&& a.layer_snap(layer)[0].targets[0].loss_pct == a.layer_snap(layer)[0].loss_pct
        }),
{
    let a = m.after(ts, mono, results);
    a_card_shows_the_least(m, ts, mono, results, layer);
    a_cycle_settles_the_statuses(m, ts, mono, results);
    assert(m.cfg.targets@[only].layer == layer);
    one_target_shown(a, layer, only, a.cfg.targets@.len() as int);
}

proof fn one_target_shown(m: EngineModel, layer: Layer, only: int, n: int)
    requires
        0 <= only < n <= m.cfg.targets@.len(),
        forall|i: int|
            0 <= i < m.cfg.targets@.len() ==> ((#[trigger] m.cfg.targets@[i]).layer == layer <==> i
                == only),
    ensures
        m.target_snaps(layer, n).len() == 1,
        m.target_snaps(layer, n)[0].loss_pct == m.targets[only].loss(),
    decreases n,
{
    assert(m.cfg.targets@[n - 1].layer == layer <==> n - 1 == only);
    if n - 1 == only {
        none_shown(m, layer, only);
    } else {
        one_target_shown(m, layer, only, n - 1);
    }
}

proof fn none_shown(m: EngineModel, layer: Layer, n: int)
    requires
        n <= m.cfg.targets@.len(),
        forall|i: int| 0 <= i < n ==> (#[trigger] m.cfg.targets@[i]).layer != layer,
    ensures
        m.target_snaps(layer, n).len() == 0,
    decreases n,
{
    if n > 0 {
        none_shown(m, layer, n - 1);
        assert(m.cfg.targets@[n - 1].layer != layer);
    }
}

/// The cards come in rank order, each is that of its layer, and no layer that
/// has one is left out.
pub proof fn cards_come_in_order(m: EngineModel)
    ensures
        forall|i: int, j: int|
            0 <= i < j < m.layer_snaps().len() ==> rank_of((#[trigger] m.layer_snaps()[i]).layer)
                < rank_of((#[trigger] m.layer_snaps()[j]).layer),
        forall|i: int|
            0 <= i < m.layer_snaps().len() ==> m.layer_snap((#[trigger] m.layer_snaps()[i]).layer)
                == seq![m.layer_snaps()[i]],
        m.layer_snaps().len() == m.layer_snap(Layer::Lan).len() + m.layer_snap(Layer::Gateway).len()
            + m.layer_snap(Layer::Internet).len() + m.layer_snap(Layer::Dns).len() + m.layer_snap(
            Layer::Host,
        ).len(),
{
    assert(m.layer_snap(Layer::Lan).len() <= 1);
    assert(m.layer_snap(Layer::Gateway).len() <= 1);
    assert(m.layer_snap(Layer::Internet).len() <= 1);
    assert(m.layer_snap(Layer::Dns).len() <= 1);
    assert(m.layer_snap(Layer::Host).len() <= 1);
    assert forall|i: int| 0 <= i < m.layer_snaps().len() implies m.layer_snap(
        (#[trigger] m.layer_snaps()[i]).layer,
    ) == seq![m.layer_snaps()[i]] by {
        assert(m.layer_snap(m.layer_snaps()[i].layer) =~= seq![m.layer_snaps()[i]]);
    }
}

/// The verdict is the internet's status, and "up" where nothing is watched. It
/// names what was measured while the internet is not down; while it is, it
/// blames the lowest layer at fault.
pub proof fn the_verdict_is_the_internets(cur: LayerMap<Status>, agg: LayerAgg)
    ensures
        cur.internet is Some ==> verdict_on(cur) == cur.internet->Some_0,
        cur.internet is None ==> verdict_on(cur) == Status::Up,
        agg.loss_pct is None && agg.latency_ms is None ==> verdict_text(cur, None) == verdict_text(
            cur,
            Some(agg),
        ),
        cur.internet is None ==> verdict_text(cur, Some(agg))
            == "Monitoring (no internet-layer targets configured)"@,
        cur.internet == Some(Status::Up) ==> verdict_text(cur, Some(agg)) == "Internet OK - "@
            + latency_text(agg.latency_ms) + " median, "@ + percent_text(agg.loss_pct) + " loss"@,
        cur.internet == Some(Status::Degraded) ==> verdict_text(cur, Some(agg))
            == "Internet DEGRADED - "@ + latency_text(agg.latency_ms) + " median, "@ + percent_text(
            agg.loss_pct,
        ) + " loss"@,
        cur.internet == Some(Status::Down) && cur.lan == Some(Status::Down) ==> verdict_text(
            cur,
            Some(agg),
        ) == "Pi is cut off from the LAN - can't judge the uplink"@,
        cur.internet == Some(Status::Down) && cur.lan != Some(Status::Down) && cur.gateway == Some(
            Status::Down,
        ) ==> verdict_text(cur, Some(agg)) == "OUTAGE - WAN gateway unreachable"@,
        cur.internet == Some(Status::Down) && cur.lan != Some(Status::Down) && cur.gateway != Some(
            Status::Down,
        ) ==> verdict_text(cur, Some(agg)) == "UPLINK OUTAGE - gateway reachable, uplink down"@,
{
    assert("Internet OK - "@ + (latency_text(agg.latency_ms) + " median, "@ + percent_text(
        agg.loss_pct,
    ) + " loss"@) =~= "Internet OK - "@ + latency_text(agg.latency_ms) + " median, "@
        + percent_text(agg.loss_pct) + " loss"@);
    assert("Internet DEGRADED - "@ + (latency_text(agg.latency_ms) + " median, "@ + percent_text(
        agg.loss_pct,
    ) + " loss"@) =~= "Internet DEGRADED - "@ + latency_text(agg.latency_ms) + " median, "@
        + percent_text(agg.loss_pct) + " loss"@);
}

/// A measurement is shown rounded, with its unit, or as not available.
pub proof fn measurements_are_shown_with_their_unit(x: Binary64)
    ensures
        latency_text(None) == "n/a"@,
        percent_text(None) == "n/a"@,
        latency_text(Some(x)) == x.rounded_text() + " ms"@,
        percent_text(Some(x)) == x.rounded_text() + "%"@,
{
}

/// The words of an outage: what is down, what is at fault, and for how long if
/// it was not announced before.
pub proof fn outages_are_put_into_words(layer: Layer, cur: LayerMap<Status>, secs: u64)
    ensures
        down_event(layer, cur).title == still_down_event(layer, cur, secs).title,
        layer != Layer::Host ==> down_event(layer, cur).title == layer.title() + " DOWN"@,
        down_event(Layer::Host, cur).title == "Watched host DOWN"@,
        down_event(Layer::Host, cur).message == "A watched host stopped responding."@,
        still_down_event(layer, cur, secs).message == down_event(layer, cur).message
            + " Still down after "@ + duration_text(secs) + "."@,
        down_event(Layer::Lan, cur).message
            == "The Pi can't reach the LAN router - local network problem (or the Pi itself)."@,
        down_event(Layer::Gateway, cur).message
            == "The WAN gateway stopped answering pings from the LAN."@,
        cur.gateway == Some(Status::Down) ==> down_event(Layer::Internet, cur).message
            == "Internet is unreachable and the WAN gateway isn't answering either - the gateway may be offline or rebooting."@,
        cur.gateway is Some && cur.gateway != Some(Status::Down) ==> down_event(
            Layer::Internet,
            cur,
        ).message
            == "Internet is unreachable but the WAN gateway still responds - the uplink is down."@,
        cur.gateway is None ==> down_event(Layer::Internet, cur).message
            == "Internet is unreachable through the uplink."@,
        cur.internet == Some(Status::Down) ==> down_event(Layer::Dns, cur).message
            == "DNS lookups failing (internet is down)."@,
        cur.internet != Some(Status::Down) ==> down_event(Layer::Dns, cur).message
            == "DNS lookups are failing while the internet looks fine - check your DNS server."@,
{
    reveal_strlit("LAN DOWN");
    reveal_strlit("WAN gateway DOWN");
    reveal_strlit("Internet DOWN");
    reveal_strlit("DNS DOWN");
    reveal_strlit("LAN");
    reveal_strlit("WAN gateway");
    reveal_strlit("Internet");
    reveal_strlit("DNS");
    reveal_strlit(" DOWN");
    assert("LAN DOWN"@ =~= "LAN"@ + " DOWN"@);
    assert("WAN gateway DOWN"@ =~= "WAN gateway"@ + " DOWN"@);
    assert("Internet DOWN"@ =~= "Internet"@ + " DOWN"@);
    assert("DNS DOWN"@ =~= "DNS"@ + " DOWN"@);
}

/// The words of a degradation: the loss and the median that were measured, over
/// how long, and the thresholds for each, in this order.
pub proof fn degradations_are_put_into_words(
    agg: LayerAgg,
    cfg: Config,
    notify: bool,
    span: u64,
    loss: Binary64,
)
    requires
        span == cfg.window_samples * cfg.interval_secs,
        agg.loss_pct == Some(loss) || agg.loss_pct is None && loss.bits == 0,
    ensures
        degraded_event(Layer::Internet, notify, agg, cfg).message == loss.rounded_text()
            + "% loss, median "@ + latency_text(agg.latency_ms) + " over the last "@
            + duration_text(span) + " - thresholds are "@ + cfg.degraded.loss_pct.rounded_text()
            + "% / "@ + cfg.degraded.latency_ms.rounded_text() + " ms."@,
{
}

/// The internet's targets by name: all of them, in order, and no others.
pub proof fn the_internets_targets_are_named(targets: Seq<Target>)
    ensures
        ({
            let names = internet_names(targets, targets.len() as int);
            let own = own_places(targets, Layer::Internet);
            &&& names.len() == own.len()
            &&& forall|k: int| 0 <= k < own.len() ==> #[trigger] names[k] == targets[own[k]].name
        }),
{
    names_grow(targets, targets.len() as int);
    assert(targets.take(targets.len() as int) =~= targets);
}

proof fn names_grow(targets: Seq<Target>, n: int)
    requires
        0 <= n <= targets.len(),
    ensures
        ({
            let names = internet_names(targets, n);
            let own = own_places(targets.take(n), Layer::Internet);
            &&& names.len() == own.len()
            &&& forall|k: int| 0 <= k < own.len() ==> #[trigger] names[k] == targets[own[k]].name
        }),
    decreases n,
{
    if n > 0 {
        names_grow(targets, n - 1);
        places_grow(targets, Layer::Internet, n);
    } else {
        reveal(Seq::filter);
        assert(own_places(targets.take(0), Layer::Internet) =~= Seq::<int>::empty());
    }
}

/// A chart has one point for each row of its target, in their order: the row's
/// time and latency, and the percentage of its samples that failed.
pub proof fn charts_have_a_point_per_row(name: Seq<char>, rows: Seq<HistoryRow>)
    ensures
        ({
            let own = rows.filter(|r: HistoryRow| r.target@ == name);
            let points = points_of(name, rows, rows.len() as int);
            &&& points.len() == own.len()
            &&& forall|k: int|
                0 <= k < own.len() ==> {
                    let p: Point = #[trigger] points[k];
                    &&& p.bucket == own[k].bucket
                    &&& p.avg_ms == own[k].avg_ms
                    &&& own[k].total > 0 ==> p.loss_pct == Binary64::percent_of(
                        own[k].fails as nat,
                        own[k].total as nat,
                    )
                    &&& own[k].total == 0 ==> p.loss_pct.bits == 0
                }
        }),
{
    points_grow(name, rows, rows.len() as int);
    assert(rows.take(rows.len() as int) =~= rows);
}

proof fn points_grow(name: Seq<char>, rows: Seq<HistoryRow>, n: int)
    requires
        0 <= n <= rows.len(),
    ensures
        ({
            let own = rows.take(n).filter(|r: HistoryRow| r.target@ == name);
            let points = points_of(name, rows, n);
            &&& points.len() == own.len()
            &&& forall|k: int|
                0 <= k < own.len() ==> {
                    let p: Point = #[trigger] points[k];
                    &&& p.bucket == own[k].bucket
                    &&& p.avg_ms == own[k].avg_ms
                    &&& own[k].total > 0 ==> p.loss_pct == Binary64::percent_of(
                        own[k].fails as nat,
                        own[k].total as nat,
                    )
                    &&& own[k].total == 0 ==> p.loss_pct.bits == 0
                }
        }),
    decreases n,
{
    reveal(Seq::filter);
    if n > 0 {
        points_grow(name, rows, n - 1);
        assert(rows.take(n).drop_last() =~= rows.take(n - 1));
        assert(rows.take(n).last() == rows[n - 1]);
    }
}

/// A chart shows what is asked for, within a quarter of an hour and ninety days:
/// the nearer of the two where that is exceeded, and a day if nothing is asked.
pub proof fn charts_keep_within_bounds(h: Binary64)
    ensures
        chart_hours(None).bits == 0x4038_0000_0000_0000,
        h.nan() ==> chart_hours(Some(h)) == h,
        !h.nan() && h.steps() < (Binary64 { bits: 0x3fd0_0000_0000_0000 }).steps() ==> chart_hours(
            Some(h),
        ).bits == 0x3fd0_0000_0000_0000,
        !h.nan() && h.steps() > (Binary64 { bits: 0x40a0_e000_0000_0000 }).steps() ==> chart_hours(
            Some(h),
        ).bits == 0x40a0_e000_0000_0000,
        !h.nan() && (Binary64 { bits: 0x3fd0_0000_0000_0000 }).steps() <= h.steps() <= (Binary64 {
            bits: 0x40a0_e000_0000_0000,
        }).steps() ==> chart_hours(Some(h)) == h,
{
    magnitudes_are_ordered(0x3fd0_0000_0000_0000, 0x40a0_e000_0000_0000);
}

/// A tile's window reaches back as many hours as it is configured with, and its
/// caption is the configured one or else names what is shown.
pub proof fn tiles_are_captioned(tile: Tile, now: u64)
    ensures
        match tile {
            Tile::Uptime { hours, .. } => now >= hours * 3600 ==> tile.window_start(now) + hours
                * 3600 == now,
            Tile::Outages { hours, .. } => now >= hours * 3600 ==> tile.window_start(now) + hours
                * 3600 == now,
            Tile::Downtime { hours, .. } => now >= hours * 3600 ==> tile.window_start(now) + hours
                * 3600 == now,
            Tile::Target { .. } => true,
        },
        match tile {
            Tile::Uptime { hours, .. } => now < hours * 3600 ==> tile.window_start(now) == 0,
            Tile::Outages { hours, .. } => now < hours * 3600 ==> tile.window_start(now) == 0,
            Tile::Downtime { hours, .. } => now < hours * 3600 ==> tile.window_start(now) == 0,
            Tile::Target { .. } => true,
        },
        match tile {
            Tile::Uptime { label: Some(l), .. } => tile.caption() == l@,
            Tile::Outages { label: Some(l), .. } => tile.caption() == l@,
            Tile::Downtime { label: Some(l), .. } => tile.caption() == l@,
            Tile::Target { label: Some(l), .. } => tile.caption() == l@,
            Tile::Target { target, label: None } => tile.caption() == target@,
            Tile::Uptime { hours, label: None, target: None } => tile.caption()
                == "Uptime \u{b7} "@ + window_text(hours),
            Tile::Uptime { hours, label: None, target: Some(t) } => tile.caption() == t@
                + " uptime \u{b7} "@ + window_text(hours),
            Tile::Outages { hours, label: None } => tile.caption() == "Outages \u{b7} "@
                + window_text(hours),
            Tile::Downtime { hours, label: None } => tile.caption() == "Downtime \u{b7} "@
                + window_text(hours),
        },
        match tile {
            Tile::Uptime { .. } => tile.kind_text() == "uptime"@,
            Tile::Outages { .. } => tile.kind_text() == "outages"@,
            Tile::Downtime { .. } => tile.kind_text() == "downtime"@,
            Tile::Target { .. } => tile.kind_text() == "target"@,
        },
{
}

/// The query for the uptime of some targets has a place for each of them.
pub proof fn each_target_has_a_placeholder(n: nat)
    ensures
        placeholders(n).len() == (if n == 0 {
            0
        } else {
            2 * n - 1
        }),
        forall|k: int|
            0 <= k < placeholders(n).len() ==> (#[trigger] placeholders(n)[k] == if k % 2 == 0 {
                '?'
            } else {
                ','
            }),
    decreases n,
{
    reveal_strlit("?");
    reveal_strlit(",?");
    if n > 1 {
        each_target_has_a_placeholder((n - 1) as nat);
    }
}

/// Each layer goes by its names: the one it is configured and stored by, and the
/// one it is shown by.
pub proof fn layers_are_told_apart(a: Layer, b: Layer)
    ensures
        a.name() == b.name() ==> a == b,
        a.title() == b.title() ==> a == b,
        Layer::Lan.name() == "lan"@ && Layer::Lan.title() == "LAN"@,
        Layer::Gateway.name() == "gateway"@ && Layer::Gateway.title() == "WAN gateway"@,
        Layer::Internet.name() == "internet"@ && Layer::Internet.title() == "Internet"@,
        Layer::Dns.name() == "dns"@ && Layer::Dns.title() == "DNS"@,
        Layer::Host.name() == "host"@ && Layer::Host.title() == "Watched hosts"@,
{
    reveal_strlit("lan");
    reveal_strlit("gateway");
    reveal_strlit("internet");
    reveal_strlit("dns");
    reveal_strlit("host");
    reveal_strlit("LAN");
    reveal_strlit("WAN gateway");
    reveal_strlit("Internet");
    reveal_strlit("DNS");
    reveal_strlit("Watched hosts");
    assert("lan"@[0] == 'l' && "dns"@[0] == 'd');
    assert("LAN"@[0] == 'L' && "DNS"@[0] == 'D');
    assert("lan"@.len() == 3 && "dns"@.len() == 3 && "gateway"@.len() == 7 && "internet"@.len() == 8
        && "host"@.len() == 4);
    assert("LAN"@.len() == 3 && "DNS"@.len() == 3 && "WAN gateway"@.len() == 11 && "Internet"@.len()
        == 8 && "Watched hosts"@.len() == 13);
}

/// What an event, a card and a shown target say is what they hold.
pub proof fn views_say_what_is_held(e: PendingEvent, l: LayerSnap, t: TargetSnap, k: int)
    ensures
        e@.layer == e.layer && e@.kind == e.kind@ && e@.title == e.title@ && e@.message
            == e.message@,
        e@.duration_secs == e.duration_secs && e@.notify == e.notify && e@.priority == e.priority
            && e@.tags == e.tags@,
        e.target is None ==> e@.target is None,
        e.target is Some ==> e@.target == Some(e.target->Some_0@),
        l@.layer == l.layer && l@.label == l.label@ && l@.status == l.status && l@.since == l.since,
        l@.loss_pct == l.loss_pct && l@.latency_ms == l.latency_ms,
        l@.targets.len() == l.targets@.len(),
        0 <= k < l.targets@.len() ==> l@.targets[k] == l.targets@[k]@,
        t@.name == t.name@ && t@.up == t.up && t@.last_ms == t.last_ms && t@.loss_pct == t.loss_pct,
{
}

/// A list of events, cards, target states or headers says what each of them
/// says, in order.
pub proof fn lists_say_what_each_says(
    events: Seq<PendingEvent>,
    cards: Seq<LayerSnap>,
    states: Seq<TargetState>,
    headers: Seq<(&'static str, String)>,
    k: int,
)
    ensures
        models_of(states).len() == states.len(),
        0 <= k < states.len() ==> models_of(states)[k] == states[k]@,
        headers_of(headers).len() == headers.len(),
        0 <= k < headers.len() ==> headers_of(headers)[k].0 == headers[k].0@ && headers_of(
            headers,
        )[k].1 == headers[k].1@,
        events_of(events).len() == events.len(),
        layer_snaps_of(cards).len() == cards.len(),
        0 <= k < events.len() ==> events_of(events)[k] == events[k]@,
        0 <= k < cards.len() ==> layer_snaps_of(cards)[k] == cards[k]@,
{
}

/// The status shown of each layer is the one that the engine has given it.
pub proof fn shown_statuses_are_current(m: EngineModel, layer: Layer)
    ensures
        m.layers.at(layer) is None ==> m.current().at(layer) is None,
        m.layers.at(layer) is Some ==> m.current().at(layer) == Some(
            m.layers.at(layer)->Some_0.status,
        ),
{
}

/// How many seconds a chart shows: the whole ones in as many hours as it shows,
/// to within a relative error of 2^-53, and none of what is not a number.
pub proof fn charts_span_their_hours(asked: Option<Binary64>)
    ensures
        asked is Some && asked->Some_0.nan() ==> chart_span(asked).0 == 0 && chart_span(asked).1
            == 0,
        asked is None || !asked->Some_0.nan() ==> ({
            let secs = chart_span(asked).0;
            let exact = 3600 * chart_hours(asked).steps();
            &&& (secs * pow2(1074)) * 0x20_0000_0000_0000 <= exact * 0x20_0000_0000_0001
            &&& ((secs + 1) * pow2(1074)) * 0x20_0000_0000_0000 > exact * 0x1f_ffff_ffff_ffff
            &&& chart_span(asked).1 == chart_hours(asked).whole_steps()
        }),
{
    if asked is None || !asked->Some_0.nan() {
        let h = chart_hours(asked);
        let shortest = Binary64 { bits: 0x3fd0_0000_0000_0000 };
        let longest = Binary64 { bits: 0x40a0_e000_0000_0000 };
        if asked is Some && h == asked->Some_0 {
            if h.at_least(shortest) {
                ordered_bits(shortest, h);
            }
            if longest.at_least(h) {
                ordered_bits(h, longest);
            }
        }
        assert(0x10_0000_0000_0000 <= h.bits < 0x4330_0000_0000_0000);
        hours_are_in_seconds(h);
    }
}

} // verus!
