//! What holds over any run of cycles.

use crate::engine::EngineModel;
use crate::events::{kinds_are_distinct, EventModel};
use crate::hosts::host_event;
use crate::ladder::{degraded_end_event, degraded_event, up_event};
use crate::laws::{events_have_a_source, sources_have_their_event};
use crate::layer::{implied, Layer, Status};
use crate::probes::ProbeResult;
use crate::status::{aggregates, has_layer};
use crate::target::seconds_between;
use vstd::prelude::*;

verus! {

/// One cycle: when it took place, by both clocks, and what its probes found.
pub struct Cycle {
    pub ts: u64,
    pub mono: u64,
    pub results: Seq<ProbeResult>,
}

impl EngineModel {
    /// The state after one cycle.
    pub open spec fn next(self, c: Cycle) -> EngineModel {
        self.after(c.ts, c.mono, c.results)
    }

    /// The state after some cycles.
    pub open spec fn run(self, cycles: Seq<Cycle>) -> EngineModel
        decreases cycles.len(),
    {
        if cycles.len() == 0 {
            self
        } else {
            self.run(cycles.drop_last()).next(cycles.last())
        }
    }

    /// Whether a layer has the status now and after each of some cycles.
    pub open spec fn stays(self, cycles: Seq<Cycle>, layer: Layer, status: Status) -> bool {
        forall|k: int|
            0 <= k <= cycles.len() ==> (#[trigger] self.run(cycles.take(k)).layers.at(
                layer,
            )) is Some && self.run(cycles.take(k)).layers.at(layer)->Some_0.status == status
    }
}

/// A cycle leaves the configuration, the number of targets and the order of the
/// engine's state as they are.
pub proof fn a_cycle_keeps_the_engine_sound(m: EngineModel, c: Cycle)
    requires
        m.well_formed(),
    ensures
        m.next(c).well_formed(),
        m.next(c).cfg == m.cfg,
        m.next(c).targets.len() == m.targets.len(),
{
    let after = m.next(c);
    let probed = m.probed(c.ts, c.mono, c.results);
    let cur = m.statuses_after(c.ts, c.mono, c.results);
    assert forall|l: Layer| (#[trigger] after.layers.at(l)) is Some <==> has_layer(
        after.cfg.targets@,
        l,
    ) by {
        assert(m.layers.at(l) is Some <==> has_layer(m.cfg.targets@, l));
        assert(after.layers.at(l) == m.layer_after(l, cur, c.ts, c.mono));
    }
    assert forall|l: Layer|
        l != Layer::Internet && (#[trigger] after.layers.at(l)) is Some implies after.layers.at(
        l,
    )->Some_0.status != Status::Degraded by {
        assert(m.layers.at(l) is Some);
        assert(after.layers.at(l) == m.layer_after(l, cur, c.ts, c.mono));
    }
    assert forall|i: int| 0 <= i < after.targets.len() implies (
    #[trigger] after.targets[i]).window.len() <= after.cfg.window_samples
        || after.targets[i].window.len() <= 1 by {
        assert(after.targets[i].window == probed[i].window);
        assert(m.targets[i].window.len() <= m.cfg.window_samples || m.targets[i].window.len() <= 1);
    }
}

/// Whatever the probes find, the configuration, the number of targets and the
/// order of the engine's state never change.
pub proof fn cycles_keep_the_engine_sound(m: EngineModel, cycles: Seq<Cycle>)
    requires
        m.well_formed(),
    ensures
        m.run(cycles).well_formed(),
        m.run(cycles).cfg == m.cfg,
        m.run(cycles).targets.len() == m.targets.len(),
    decreases cycles.len(),
{
    if cycles.len() > 0 {
        cycles_keep_the_engine_sound(m, cycles.drop_last());
        a_cycle_keeps_the_engine_sound(m.run(cycles.drop_last()), cycles.last());
    }
}

/// A target goes down after as many consecutive failed cycles as the threshold
/// says, and no sooner.
pub proof fn failures_bring_a_target_down(m: EngineModel, cycles: Seq<Cycle>, i: int)
    requires
        m.well_formed(),
        0 <= i < m.targets.len(),
        m.cfg.fail_threshold >= 1,
        m.cfg.recover_threshold >= 1,
        m.targets[i].up,
        m.targets[i].consec_fail == 0,
        cycles.len() <= u32::MAX,
        forall|k: int|
            0 <= k < cycles.len() ==> i < (#[trigger] cycles[k]).results.len()
                && !cycles[k].results[i].ok,
    ensures
        m.run(cycles).targets[i].up == (cycles.len() < m.cfg.fail_threshold),
        m.run(cycles).targets[i].consec_fail == cycles.len(),
        cycles.len() > 0 ==> m.run(cycles).targets[i].consec_ok == 0,
    decreases cycles.len(),
{
    if cycles.len() > 0 {
        let c = cycles.last();
        let shorter = cycles.drop_last();
        assert forall|k: int| 0 <= k < shorter.len() implies i < (
        #[trigger] shorter[k]).results.len() && !shorter[k].results[i].ok by {
            assert(shorter[k] == cycles[k]);
        }
        failures_bring_a_target_down(m, shorter, i);
        cycles_keep_the_engine_sound(m, shorter);
        assert(cycles[cycles.len() - 1] == c);
        let before = m.run(shorter);
        assert(before.probed(c.ts, c.mono, c.results)[i] == before.targets[i].probed(
            c.results[i],
            m.cfg,
            c.ts,
            c.mono,
        ));
    }
}

/// A target comes back after as many consecutive successful cycles as the
/// threshold says, and no sooner.
pub proof fn successes_bring_a_target_back(m: EngineModel, cycles: Seq<Cycle>, i: int)
    requires
        m.well_formed(),
        0 <= i < m.targets.len(),
        m.cfg.fail_threshold >= 1,
        m.cfg.recover_threshold >= 1,
        !m.targets[i].up,
        m.targets[i].consec_ok == 0,
        cycles.len() <= u32::MAX,
        forall|k: int|
            0 <= k < cycles.len() ==> i < (#[trigger] cycles[k]).results.len()
                && cycles[k].results[i].ok,
    ensures
        m.run(cycles).targets[i].up == (cycles.len() >= m.cfg.recover_threshold),
        m.run(cycles).targets[i].consec_ok == cycles.len(),
        cycles.len() > 0 ==> m.run(cycles).targets[i].consec_fail == 0,
    decreases cycles.len(),
{
    if cycles.len() > 0 {
        let c = cycles.last();
        let shorter = cycles.drop_last();
        assert forall|k: int| 0 <= k < shorter.len() implies i < (
        #[trigger] shorter[k]).results.len() && shorter[k].results[i].ok by {
            assert(shorter[k] == cycles[k]);
        }
        successes_bring_a_target_back(m, shorter, i);
        cycles_keep_the_engine_sound(m, shorter);
        assert(cycles[cycles.len() - 1] == c);
        let before = m.run(shorter);
        assert(before.probed(c.ts, c.mono, c.results)[i] == before.targets[i].probed(
            c.results[i],
            m.cfg,
            c.ts,
            c.mono,
        ));
    }
}

/// While a layer's status lasts, the engine remembers when it began and whether
/// its degradation was announced.
pub proof fn a_lasting_status_keeps_its_start(
    m: EngineModel,
    cycles: Seq<Cycle>,
    layer: Layer,
    status: Status,
)
    requires
        m.well_formed(),
        m.stays(cycles, layer, status),
    ensures
        ({
            let before = m.layers.at(layer)->Some_0;
            let after = m.run(cycles).layers.at(layer)->Some_0;
            &&& m.layers.at(layer) is Some
            &&& m.run(cycles).layers.at(layer) is Some
            &&& before.status == status
            &&& after.status == status
            &&& after.since == before.since
            &&& after.since_mono == before.since_mono
            &&& after.notified_degraded == before.notified_degraded
        }),
    decreases cycles.len(),
{
    assert(cycles.take(0) =~= Seq::<Cycle>::empty());
    assert(m.run(cycles.take(0)).layers.at(layer) is Some);
    if cycles.len() > 0 {
        let c = cycles.last();
        let shorter = cycles.drop_last();
        assert forall|k: int| 0 <= k <= shorter.len() implies (#[trigger] m.run(
            shorter.take(k),
        ).layers.at(layer)) is Some && m.run(shorter.take(k)).layers.at(layer)->Some_0.status
            == status by {
            assert(shorter.take(k) =~= cycles.take(k));
            assert(m.run(cycles.take(k)).layers.at(layer) is Some);
        }
        a_lasting_status_keeps_its_start(m, shorter, layer, status);
        cycles_keep_the_engine_sound(m, shorter);
        assert(cycles.take(cycles.len() as int) =~= cycles);
        assert(m.run(cycles.take(cycles.len() as int)).layers.at(layer) is Some);
        let before = m.run(shorter);
        let cur = before.statuses_after(c.ts, c.mono, c.results);
        assert(m.run(cycles).layers.at(layer) == before.layer_after(layer, cur, c.ts, c.mono));
    }
}

/// A recovery includes the duration of the outage: from the cycle in which the
/// layer went down to the one in which it came back, by the monotonic clock.
pub proof fn recovery_reports_the_whole_outage(
    m: EngineModel,
    first: Cycle,
    cycles: Seq<Cycle>,
    last: Cycle,
    layer: Layer,
)
    requires
        m.well_formed(),
        layer != Layer::Host,
        m.layers.at(layer) is Some,
        m.layers.at(layer)->Some_0.status != Status::Down,
        m.next(first).stays(cycles, layer, Status::Down),
        m.next(first).run(cycles).next(last).layers.at(layer)->Some_0.status != Status::Down,
    ensures
        ({
            let during = m.next(first).run(cycles);
            let announced = during.layers.at(layer)->Some_0.notified_down && !implied(
                layer,
                during.statuses_after(last.ts, last.mono, last.results),
            );
            during.events(last.ts, last.mono, last.results).contains(
                up_event(layer, announced, seconds_between(first.mono, last.mono)),
            )
        }),
        first.mono <= last.mono ==> exists|e: EventModel|
            #[trigger] m.next(first).run(cycles).events(
                last.ts,
                last.mono,
                last.results,
            ).contains(e) && e.kind == "up"@ && e.layer == layer && e.target is None
                && e.duration_secs is Some && first.mono + e.duration_secs->Some_0 * 1_000_000_000
                <= last.mono < first.mono + (e.duration_secs->Some_0 + 1) * 1_000_000_000,
{
    let during = m.next(first).run(cycles);
    a_cycle_keeps_the_engine_sound(m, first);
    cycles_keep_the_engine_sound(m.next(first), cycles);
    a_lasting_status_keeps_its_start(m.next(first), cycles, layer, Status::Down);
    let cur0 = m.statuses_after(first.ts, first.mono, first.results);
    assert(m.next(first).layers.at(layer) == m.layer_after(layer, cur0, first.ts, first.mono));
    let cur = during.statuses_after(last.ts, last.mono, last.results);
    assert(during.next(last).layers.at(layer) == during.layer_after(
        layer,
        cur,
        last.ts,
        last.mono,
    ));
    let announced = during.layers.at(layer)->Some_0.notified_down && !implied(layer, cur);
    let e = up_event(layer, announced, seconds_between(first.mono, last.mono));
    assert(during.is_change(last.ts, last.mono, last.results, layer, e));
    sources_have_their_event(during, last.ts, last.mono, last.results, e);
}

/// While a target stays down, the engine remembers since when.
pub proof fn a_lasting_outage_keeps_its_start(m: EngineModel, cycles: Seq<Cycle>, i: int)
    requires
        m.well_formed(),
        0 <= i < m.targets.len(),
        forall|k: int|
            0 <= k <= cycles.len() ==> !(#[trigger] m.run(cycles.take(k)).targets[i]).up,
    ensures
        !m.run(cycles).targets[i].up,
        m.run(cycles).targets[i].down_since == m.targets[i].down_since,
        m.run(cycles).targets[i].down_since_mono == m.targets[i].down_since_mono,
    decreases cycles.len(),
{
    assert(cycles.take(cycles.len() as int) =~= cycles);
    assert(!m.run(cycles.take(cycles.len() as int)).targets[i].up);
    if cycles.len() > 0 {
        let c = cycles.last();
        let shorter = cycles.drop_last();
        assert forall|k: int| 0 <= k <= shorter.len() implies !(#[trigger] m.run(
            shorter.take(k),
        ).targets[i]).up by {
            assert(shorter.take(k) =~= cycles.take(k));
            assert(!m.run(cycles.take(k)).targets[i].up);
        }
        a_lasting_outage_keeps_its_start(m, shorter, i);
        cycles_keep_the_engine_sound(m, shorter);
        let before = m.run(shorter);
        assert(m.run(cycles).targets[i] == before.target_after(
            i,
            before.probed(c.ts, c.mono, c.results),
            implied(Layer::Host, before.statuses_after(c.ts, c.mono, c.results)),
        ));
    }
}

/// A host's recovery includes the duration of its outage, and is announced if
/// the outage was and the LAN is up.
pub proof fn host_recovery_reports_the_whole_outage(
    m: EngineModel,
    first: Cycle,
    cycles: Seq<Cycle>,
    last: Cycle,
    i: int,
)
    requires
        m.well_formed(),
        0 <= i < m.targets.len(),
        m.cfg.targets@[i].layer == Layer::Host,
        m.targets[i].up,
        forall|k: int|
            0 <= k <= cycles.len() ==> !(#[trigger] m.next(first).run(cycles.take(k)).targets[i]).up,
        m.next(first).run(cycles).next(last).targets[i].up,
    ensures
        ({
            let during = m.next(first).run(cycles);
            exists|e: EventModel|
                #[trigger] during.events(last.ts, last.mono, last.results).contains(e) && e.kind
                    == "up"@ && e.target == Some(m.cfg.targets@[i].name@) && e.duration_secs
                    == Some(seconds_between(first.mono, last.mono)) && e.notify == (
                during.targets[i].notified_down && !implied(
                    Layer::Host,
                    during.statuses_after(last.ts, last.mono, last.results),
                ))
        }),
        first.mono <= last.mono ==> exists|e: EventModel|
            #[trigger] m.next(first).run(cycles).events(
                last.ts,
                last.mono,
                last.results,
            ).contains(e) && e.kind == "up"@ && e.target == Some(m.cfg.targets@[i].name@)
                && e.duration_secs is Some && first.mono + e.duration_secs->Some_0 * 1_000_000_000
                <= last.mono < first.mono + (e.duration_secs->Some_0 + 1) * 1_000_000_000,
{
    let during = m.next(first).run(cycles);
    a_cycle_keeps_the_engine_sound(m, first);
    cycles_keep_the_engine_sound(m.next(first), cycles);
    a_lasting_outage_keeps_its_start(m.next(first), cycles, i);
    assert(cycles.take(0) =~= Seq::<Cycle>::empty());
    assert(!m.next(first).run(cycles.take(0)).targets[i].up);
    let probed0 = m.probed(first.ts, first.mono, first.results);
    let lan0 = implied(
        Layer::Host,
        m.statuses_after(first.ts, first.mono, first.results),
    );
    assert(m.next(first).targets[i] == m.target_after(i, probed0, lan0));
    let probed = during.probed(last.ts, last.mono, last.results);
    let lan_down = implied(
        Layer::Host,
        during.statuses_after(last.ts, last.mono, last.results),
    );
    assert(during.next(last).targets[i] == during.target_after(i, probed, lan_down));
    let event = host_event(
        m.cfg.targets@[i],
        during.targets[i].up,
        probed[i],
        lan_down,
        last.ts,
        last.mono,
    );
    let e = event->Some_0;
    assert(during.is_of_host(last.ts, last.mono, last.results, i, e));
    sources_have_their_event(during, last.ts, last.mono, last.results, e);
}

/// "Back to normal" is announced if the degradation that it ends was and no
/// lower layer is down, and tells how long the degradation lasted.
pub proof fn degradations_end_as_they_began(
    m: EngineModel,
    first: Cycle,
    cycles: Seq<Cycle>,
    last: Cycle,
    layer: Layer,
)
    requires
        m.well_formed(),
        layer != Layer::Host,
        m.layers.at(layer) is Some,
        m.layers.at(layer)->Some_0.status == Status::Up,
        m.next(first).stays(cycles, layer, Status::Degraded),
        m.next(first).run(cycles).next(last).layers.at(layer)->Some_0.status == Status::Up,
    ensures
        ({
            let announced = m.layers.at(layer)->Some_0.cooled(m.cfg, first.mono) && !implied(
                layer,
                m.statuses_after(first.ts, first.mono, first.results),
            );
            let agg = aggregates(
                m.cfg,
                m.probed(first.ts, first.mono, first.results),
            ).at(layer)->Some_0;
            &&& m.events(first.ts, first.mono, first.results).contains(
                degraded_event(layer, announced, agg, m.cfg),
            )
            &&& m.next(first).run(cycles).events(last.ts, last.mono, last.results).contains(
                degraded_end_event(
                    layer,
                    announced && !implied(
                        layer,
                        m.next(first).run(cycles).statuses_after(
                            last.ts,
                            last.mono,
                            last.results,
                        ),
                    ),
                    seconds_between(first.mono, last.mono),
                ),
            )
        }),
        first.mono <= last.mono ==> exists|e: EventModel|
            #[trigger] m.next(first).run(cycles).events(
                last.ts,
                last.mono,
                last.results,
            ).contains(e) && e.kind == "degraded_end"@ && e.layer == layer && e.target is None
                && e.duration_secs is Some && first.mono + e.duration_secs->Some_0 * 1_000_000_000
                <= last.mono < first.mono + (e.duration_secs->Some_0 + 1) * 1_000_000_000,
{
    let during = m.next(first).run(cycles);
    a_cycle_keeps_the_engine_sound(m, first);
    cycles_keep_the_engine_sound(m.next(first), cycles);
    a_lasting_status_keeps_its_start(m.next(first), cycles, layer, Status::Degraded);
    let cur0 = m.statuses_after(first.ts, first.mono, first.results);
    assert(m.next(first).layers.at(layer) == m.layer_after(layer, cur0, first.ts, first.mono));
    let announced = m.layers.at(layer)->Some_0.cooled(m.cfg, first.mono) && !implied(layer, cur0);
    let agg = aggregates(m.cfg, m.probed(first.ts, first.mono, first.results)).at(
        layer,
    )->Some_0;
    let begin = degraded_event(layer, announced, agg, m.cfg);
    assert(m.is_change(first.ts, first.mono, first.results, layer, begin));
    sources_have_their_event(m, first.ts, first.mono, first.results, begin);
    let cur = during.statuses_after(last.ts, last.mono, last.results);
    assert(during.next(last).layers.at(layer) == during.layer_after(
        layer,
        cur,
        last.ts,
        last.mono,
    ));
    let end = degraded_end_event(
        layer,
        announced && !implied(layer, cur),
        seconds_between(first.mono, last.mono),
    );
    assert(during.is_change(last.ts, last.mono, last.results, layer, end));
    sources_have_their_event(during, last.ts, last.mono, last.results, end);
}

/// Whether a degradation is announced in a cycle.
pub open spec fn announces_degradation(m: EngineModel, c: Cycle) -> bool {
    exists|e: EventModel|
        #[trigger] m.events(c.ts, c.mono, c.results).contains(e) && e.kind == "degraded"@
            && e.notify
}

proof fn an_announced_degradation_is_noted(m: EngineModel, c: Cycle)
    requires
        m.well_formed(),
        announces_degradation(m, c),
    ensures
        m.layers.internet is Some,
        m.layers.internet->Some_0.cooled(m.cfg, c.mono),
        m.next(c).layers.internet is Some,
        m.next(c).layers.internet->Some_0.last_degraded_alert == Some(c.mono),
{
    kinds_are_distinct();
    let e = choose|e: EventModel|
        #[trigger] m.events(c.ts, c.mono, c.results).contains(e) && e.kind == "degraded"@
            && e.notify;
    events_have_a_source(m, c.ts, c.mono, c.results, e);
    assert(exists|l: Layer| m.is_change(c.ts, c.mono, c.results, l, e));
    let l = choose|l: Layer| m.is_change(c.ts, c.mono, c.results, l, e);
    let cur = m.statuses_after(c.ts, c.mono, c.results);
    assert(has_layer(m.cfg.targets@, l));
    assert(cur.at(l) == Some(Status::Degraded));
    assert(l == Layer::Internet);
    assert(m.next(c).layers.at(l) == m.layer_after(l, cur, c.ts, c.mono));
}

proof fn the_last_announcement_is_remembered(m: EngineModel, cycles: Seq<Cycle>, since: u64)
    requires
        m.well_formed(),
        m.layers.internet is Some,
        m.layers.internet->Some_0.last_degraded_alert is Some,
        m.layers.internet->Some_0.last_degraded_alert->Some_0 >= since,
        forall|k: int| 0 <= k < cycles.len() ==> (#[trigger] cycles[k]).mono >= since,
    ensures
        m.run(cycles).layers.internet is Some,
        m.run(cycles).layers.internet->Some_0.last_degraded_alert is Some,
        m.run(cycles).layers.internet->Some_0.last_degraded_alert->Some_0 >= since,
    decreases cycles.len(),
{
    if cycles.len() > 0 {
        let c = cycles.last();
        let shorter = cycles.drop_last();
        assert forall|k: int| 0 <= k < shorter.len() implies (#[trigger] shorter[k]).mono
            >= since by {
            assert(shorter[k] == cycles[k]);
        }
        the_last_announcement_is_remembered(m, shorter, since);
        assert(cycles[cycles.len() - 1] == c);
        let before = m.run(shorter);
        let cur = before.statuses_after(c.ts, c.mono, c.results);
        assert(m.run(cycles).layers.at(Layer::Internet) == before.layer_after(
            Layer::Internet,
            cur,
            c.ts,
            c.mono,
        ));
    }
}

/// Two announced degradations are at least a cooldown apart, by the monotonic
/// clock.
pub proof fn announced_degradations_keep_their_distance(
    m: EngineModel,
    first: Cycle,
    cycles: Seq<Cycle>,
    last: Cycle,
)
    requires
        m.well_formed(),
        announces_degradation(m, first),
        announces_degradation(m.next(first).run(cycles), last),
        forall|k: int| 0 <= k < cycles.len() ==> (#[trigger] cycles[k]).mono >= first.mono,
        last.mono >= first.mono,
    ensures
        last.mono - first.mono >= m.cfg.degraded.cooldown_mins * 60 * 1_000_000_000,
{
    let during = m.next(first).run(cycles);
    a_cycle_keeps_the_engine_sound(m, first);
    cycles_keep_the_engine_sound(m.next(first), cycles);
    an_announced_degradation_is_noted(m, first);
    the_last_announcement_is_remembered(m.next(first), cycles, first.mono);
    an_announced_degradation_is_noted(during, last);
}

} // verus!
