//! What is read from a window of probes and how layers follow their targets, in
//! terms of the probes themselves.

use crate::binary64::{by_rank, rank_is_injective, Binary64};
use crate::config::{Config, Target};
use crate::laws::the_median_was_measured;
use crate::layer::{Layer, LayerMap, Status};
use crate::probes::ProbeResult;
use crate::status::{
    aggregates, any_down, any_up, least_loss, least_median, lesser_of, reached, statuses,
};
use crate::target::TargetModel;
use vstd::prelude::*;
use vstd::set_lib::*;

verus! {

/// The places of a sequence at which a condition holds.
pub open spec fn places<A>(s: Seq<A>, p: spec_fn(A) -> bool) -> Set<int> {
    Set::new(|j: int| 0 <= j < s.len() && p(s[j]))
}

/// Keeping the elements that meet a condition keeps one for each place.
proof fn kept_elements_are_counted<A>(s: Seq<A>, p: spec_fn(A) -> bool)
    ensures
        places(s, p).finite(),
        places(s, p).len() == s.filter(p).len(),
    decreases s.len(),
{
    reveal(Seq::filter);
    if s.len() == 0 {
        assert(places(s, p) =~= Set::<int>::empty());
    } else {
        let front = s.drop_last();
        kept_elements_are_counted(front, p);
        assert forall|j: int| 0 <= j < front.len() implies front[j] == s[j] by {}
        if p(s.last()) {
            assert(places(s, p) =~= places(front, p).insert(s.len() - 1));
        } else {
            assert(places(s, p) =~= places(front, p));
        }
    }
}

/// Sequences with the same elements have as many that meet a condition.
proof fn counts_ignore_order<A>(a: Seq<A>, b: Seq<A>, p: spec_fn(A) -> bool)
    requires
        a.to_multiset() == b.to_multiset(),
    ensures
        a.filter(p).len() == b.filter(p).len(),
    decreases a.len(),
{
    broadcast use vstd::seq_lib::group_to_multiset_ensures;

    reveal(Seq::filter);
    assert(a.len() == b.len()) by {
        assert(a.to_multiset().len() == a.len());
        assert(b.to_multiset().len() == b.len());
    }
    if a.len() > 0 {
        let x = a.last();
        assert(a.to_multiset().count(x) > 0) by {
            assert(a.contains(x));
        }
        assert(b.contains(x));
        let k = b.index_of(x);
        assert(b[k] == x);
        let rest = b.remove(k);
        let front = a.drop_last();
        assert(front =~= a.remove(a.len() - 1));
        assert(front.to_multiset() =~= a.to_multiset().remove(x));
        assert(rest.to_multiset() =~= b.to_multiset().remove(x));
        counts_ignore_order(front, rest, p);
        let left = b.take(k);
        let right = b.skip(k + 1);
        assert(rest =~= left + right);
        assert(b =~= (left.push(x)) + right);
        Seq::filter_distributes_over_add(left, right, p);
        Seq::filter_distributes_over_add(left.push(x), right, p);
        assert(left.push(x).drop_last() =~= left);
    }
}

/// The loss is the percentage of the probes in the window that failed, once
/// there are three of them.
pub proof fn the_loss_counts_the_failures(t: TargetModel)
    ensures
        t.loss() is Some <==> t.window.len() >= 3,
        t.loss() is Some ==> t.loss() == Some(
            Binary64::percent_of(
                Set::new(|j: int| 0 <= j < t.window.len() && t.window[j] is None).len(),
                t.window.len(),
            ),
        ),
{
    let failed = |s: Option<Binary64>| s is None;
    kept_elements_are_counted(t.window, failed);
    assert(places(t.window, failed) =~= Set::new(
        |j: int| 0 <= j < t.window.len() && t.window[j] is None,
    ));
}

/// A failure adds one to the failures in a window, at whichever end it comes in;
/// a success adds none. Without probes there are none.
pub proof fn one_probe_counts_once(t: TargetModel, probe: Option<Binary64>)
    ensures
        t.window.len() == 0 ==> t.failures() == 0,
        (TargetModel { window: t.window.push(probe), ..t }).failures() == t.failures() + (
        if probe is None {
            1int
        } else {
            0
        }),
        t.window.len() > 0 ==> t.failures() == (TargetModel {
            window: t.window.drop_first(),
            ..t
        }).failures() + (if t.window[0] is None {
            1int
        } else {
            0
        }),
{
    reveal(Seq::filter);
    let failed = |s: Option<Binary64>| s is None;
    assert(t.window.push(probe).drop_last() =~= t.window);
    if t.window.len() > 0 {
        let first = seq![t.window[0]];
        assert(t.window =~= first + t.window.drop_first());
        Seq::filter_distributes_over_add(first, t.window.drop_first(), failed);
        assert(first.drop_last() =~= Seq::<Option<Binary64>>::empty());
        assert(first.drop_last().filter(failed).len() == 0);
        assert(first.filter(failed).len() == if t.window[0] is None {
            1int
        } else {
            0
        });
    }
}

/// The loss and the median do not depend on the order of the probes.
pub proof fn the_order_of_probes_is_immaterial(a: TargetModel, b: TargetModel)
    requires
        a.window.to_multiset() == b.window.to_multiset(),
    ensures
        a.failures() == b.failures(),
        a.loss() == b.loss(),
        a.median() == b.median(),
{
    broadcast use vstd::seq_lib::group_to_multiset_ensures;

    assert(a.window.len() == b.window.len()) by {
        assert(a.window.to_multiset().len() == a.window.len());
        assert(b.window.to_multiset().len() == b.window.len());
    }
    counts_ignore_order(a.window, b.window, |s: Option<Binary64>| s is None);
    counts_ignore_order(a.window, b.window, |s: Option<Binary64>| s is Some);
    assert(a.latencies().len() == b.latencies().len());
    if a.median() is Some {
        the_median_stands_in_the_middle(a);
        the_median_stands_in_the_middle(b);
        let x = a.median()->Some_0;
        let y = b.median()->Some_0;
        kept_elements_are_counted(a.window, |s: Option<Binary64>| s is Some);
        kept_elements_are_counted(b.window, |s: Option<Binary64>| s is Some);
        middles_agree(a, b, x, y);
        middles_agree(b, a, y, x);
        rank_is_injective(x, y);
    }
}

/// Of windows of the same probes, neither has its middle below the other's.
proof fn middles_agree(a: TargetModel, b: TargetModel, x: Binary64, y: Binary64)
    requires
        a.window.to_multiset() == b.window.to_multiset(),
        places(a.window, |s: Option<Binary64>| s is Some).len() == places(
            b.window,
            |s: Option<Binary64>| s is Some,
        ).len(),
        places(
            b.window,
            |s: Option<Binary64>| s is Some && s->Some_0.rank() < y.rank(),
        ).len() <= places(b.window, |s: Option<Binary64>| s is Some).len() / 2,
        places(
            a.window,
            |s: Option<Binary64>| s is Some && s->Some_0.rank() <= x.rank(),
        ).len() > places(a.window, |s: Option<Binary64>| s is Some).len() / 2,
    ensures
        x.rank() >= y.rank(),
{
    let up_to_x = |s: Option<Binary64>| s is Some && s->Some_0.rank() <= x.rank();
    let below_y = |s: Option<Binary64>| s is Some && s->Some_0.rank() < y.rank();
    kept_elements_are_counted(a.window, up_to_x);
    kept_elements_are_counted(b.window, up_to_x);
    kept_elements_are_counted(b.window, below_y);
    counts_ignore_order(a.window, b.window, up_to_x);
    if x.rank() < y.rank() {
        assert(places(b.window, up_to_x).subset_of(places(b.window, below_y)));
        lemma_len_subset(places(b.window, up_to_x), places(b.window, below_y));
    }
}

/// The median is a latency from the window with at most half of the latencies
/// below it and more than half up to it, half being rounded down. There is one
/// as soon as a probe in the window succeeded.
pub proof fn the_median_stands_in_the_middle(t: TargetModel)
    ensures
        t.median() is Some <==> exists|j: int| 0 <= j < t.window.len() && t.window[j] is Some,
        t.median() is Some ==> ({
            let m = t.median()->Some_0;
            let latencies = places(t.window, |s: Option<Binary64>| s is Some).len();
            &&& t.window.contains(Some(m))
            &&& places(
                t.window,
                |s: Option<Binary64>| s is Some && s->Some_0.rank() < m.rank(),
            ).len() <= latencies / 2
            &&& places(
                t.window,
                |s: Option<Binary64>| s is Some && s->Some_0.rank() <= m.rank(),
            ).len() > latencies / 2
        }),
{
    broadcast use vstd::seq_lib::group_to_multiset_ensures;

    let good = |s: Option<Binary64>| s is Some;
    let kept = t.window.filter(good);
    let ok = t.latencies();
    assert forall|k: int| 0 <= k < kept.len() implies good(#[trigger] kept[k]) by {
        t.window.lemma_filter_pred(good, k);
    }
    kept_elements_are_counted(t.window, good);
    assert(ok.len() == kept.len());
    if exists|j: int| 0 <= j < t.window.len() && t.window[j] is Some {
        let j = choose|j: int| 0 <= j < t.window.len() && t.window[j] is Some;
        assert(places(t.window, good).contains(j));
        assert(places(t.window, good).len() > 0);
    }
    if ok.len() > 0 {
        assert(good(kept[0]));
        t.window.lemma_filter_contains_rev(good, kept[0]);
        assert(t.window.contains(kept[0]));
        let sorted = ok.sort_by(by_rank());
        let middle = (ok.len() / 2) as int;
        the_median_was_measured(t);
        let m = t.median()->Some_0;
        assert(sorted.len() == ok.len()) by {
            assert(sorted.to_multiset().len() == sorted.len());
            assert(ok.to_multiset().len() == ok.len());
        }
        let i = ok.index_of(m);
        assert(ok[i] == m && good(kept[i]) && kept[i] == Some(m));
        t.window.lemma_filter_contains_rev(good, kept[i]);
        assert(t.window.contains(kept[i]));
        let lower = |x: Binary64| x.rank() < m.rank();
        let up_to = |x: Binary64| x.rank() <= m.rank();
        counts_ignore_order(ok, sorted, lower);
        counts_ignore_order(ok, sorted, up_to);
        kept_elements_are_counted(sorted, lower);
        kept_elements_are_counted(sorted, up_to);
        lemma_int_range(0, middle);
        lemma_int_range(0, middle + 1);
        assert(places(sorted, lower).subset_of(set_int_range(0, middle)));
        lemma_len_subset(places(sorted, lower), set_int_range(0, middle));
        assert(set_int_range(0, middle + 1).subset_of(places(sorted, up_to)));
        lemma_len_subset(set_int_range(0, middle + 1), places(sorted, up_to));
        let lower_some = |s: Option<Binary64>| s is Some && s->Some_0.rank() < m.rank();
        let up_to_some = |s: Option<Binary64>| s is Some && s->Some_0.rank() <= m.rank();
        kept_elements_are_counted(t.window, lower_some);
        kept_elements_are_counted(t.window, up_to_some);
        latencies_are_counted(t.window, lower, lower_some);
        latencies_are_counted(t.window, up_to, up_to_some);
    }
}

/// Counting latencies is counting the probes that have them.
proof fn latencies_are_counted(
    window: Seq<Option<Binary64>>,
    p: spec_fn(Binary64) -> bool,
    q: spec_fn(Option<Binary64>) -> bool,
)
    requires
        forall|s: Option<Binary64>| #[trigger] q(s) == (s is Some && p(s->Some_0)),
    ensures
        window.filter(q).len() == window.filter(|s: Option<Binary64>| s is Some).map_values(
            |s: Option<Binary64>| s->Some_0,
        ).filter(p).len(),
    decreases window.len(),
{
    reveal(Seq::filter);
    let good = |s: Option<Binary64>| s is Some;
    let value = |s: Option<Binary64>| s->Some_0;
    if window.len() > 0 {
        let front = window.drop_last();
        latencies_are_counted(front, p, q);
        let rest = front.filter(good).map_values(value);
        let all = window.filter(good).map_values(value);
        if good(window.last()) {
            assert(all =~= rest.push(window.last()->Some_0));
            assert(all.drop_last() =~= rest);
        } else {
            assert(all =~= rest);
        }
        assert(q(window.last()) == (good(window.last()) && p(window.last()->Some_0)));
    } else {
        assert(window.filter(good).map_values(value) =~= Seq::<Binary64>::empty());
    }
}

/// One probe of a target, in all its parts. The window takes it in at the end
/// and lets go of the oldest once it is full. The streaks count on or start
/// again. The target goes down when its failures reach their threshold and comes
/// up when its successes reach theirs, and at no other time.
pub proof fn a_probe_moves_a_target(
    t: TargetModel,
    res: ProbeResult,
    cfg: Config,
    ts: u64,
    mono: u64,
)
    ensures
        ({
            let r = t.probed(res, cfg, ts, mono);
            let full = t.window.len() >= cfg.window_samples && t.window.len() > 0;
            let gone: int = if full {
                1
            } else {
                0
            };
            &&& res.ok ==> r.consec_fail == 0
            &&& res.ok && t.consec_ok < u32::MAX ==> r.consec_ok == t.consec_ok + 1
            &&& res.ok && t.consec_ok == u32::MAX ==> r.consec_ok == u32::MAX
            &&& !res.ok ==> r.consec_ok == 0
            &&& !res.ok && t.consec_fail < u32::MAX ==> r.consec_fail == t.consec_fail + 1
            &&& !res.ok && t.consec_fail == u32::MAX ==> r.consec_fail == u32::MAX
            &&& t.up ==> (r.up <==> r.consec_fail < cfg.fail_threshold)
            &&& !t.up ==> (r.up <==> r.consec_ok >= cfg.recover_threshold)
            &&& t.up && !r.up ==> r.down_since == Some(ts) && r.down_since_mono == Some(mono)
            &&& t.up == r.up || r.up ==> r.down_since == t.down_since && r.down_since_mono
                == t.down_since_mono
            &&& r.notified_down == t.notified_down
            &&& t.up || !r.up ==> r.window.len() == t.window.len() + 1 - gone
            &&& t.up || !r.up ==> r.window[r.window.len() - 1] == res.latency_ms
            &&& t.up || !r.up ==> forall|j: int|
                0 <= j < r.window.len() - 1 ==> #[trigger] r.window[j] == t.window[j + gone]
            &&& !t.up && r.up && res.latency_ms is Some ==> r.window.len() == 1 && r.window[0]
                == res.latency_ms
            &&& !t.up && r.up && res.latency_ms is None ==> r.window.len() == 0
        }),
{
}

/// The latency shown for a target is that of its latest probe.
pub proof fn the_latest_probe_is_shown(t: TargetModel)
    ensures
        t.window.len() == 0 ==> t.last() is None,
        t.window.len() > 0 ==> t.last() == t.window[t.window.len() - 1],
{
}

/// How long a target has been down: whole seconds by the clock that cannot be
/// set where its fall was seen, seconds by the other clock where it was not, and
/// nothing where its start is not known.
pub proof fn outages_of_targets_are_timed(t: TargetModel, ts: u64, mono: u64)
    ensures
        t.down_since_mono is Some && t.down_since_mono->Some_0 <= mono ==> t.down_since_mono->Some_0
            + t.down_secs(ts, mono) * 1_000_000_000 <= mono < t.down_since_mono->Some_0 + (
        t.down_secs(ts, mono) + 1) * 1_000_000_000,
        t.down_since_mono is Some && t.down_since_mono->Some_0 > mono ==> t.down_secs(ts, mono)
            == 0,
        t.down_since_mono is None && t.down_since is Some && t.down_since->Some_0 <= ts
            ==> t.down_since->Some_0 + t.down_secs(ts, mono) == ts,
        t.down_since_mono is None && t.down_since is Some && t.down_since->Some_0 > ts
            ==> t.down_secs(ts, mono) == 0,
        t.down_since_mono is None && t.down_since is None ==> t.down_secs(ts, mono) == 0,
{
}

/// Whether `least` is the least of what a layer's own targets measure: one of
/// them measures it, and none of them measures a lesser number. It is missing
/// just if none of them measures anything.
pub open spec fn least_of_own(
    least: Option<Binary64>,
    targets: Seq<Target>,
    layer: Layer,
    measured: spec_fn(int) -> Option<Binary64>,
) -> bool {
    &&& least is Some <==> exists|i: int|
        0 <= i < targets.len() && (#[trigger] targets[i]).layer == layer && measured(i) is Some
    &&& least is Some ==> exists|i: int|
        0 <= i < targets.len() && (#[trigger] targets[i]).layer == layer && measured(i) == least
    &&& forall|i: int|
        0 <= i < targets.len() && (#[trigger] targets[i]).layer == layer && measured(i) is Some
            && !measured(i)->Some_0.nan() ==> !least->Some_0.nan() && least->Some_0.steps()
            <= measured(i)->Some_0.steps()
}

proof fn the_least_is_found(targets: Seq<Target>, states: Seq<TargetModel>, layer: Layer, n: int)
    requires
        0 <= n <= targets.len(),
    ensures
        least_of_own(
            least_loss(targets, states, layer, n),
            targets.take(n),
            layer,
            |i: int| states[i].loss(),
        ),
        least_of_own(
            least_median(targets, states, layer, n),
            targets.take(n),
            layer,
            |i: int| states[i].median(),
        ),
    decreases n,
{
    if n > 0 {
        the_least_is_found(targets, states, layer, n - 1);
        the_least_grows(
            least_loss(targets, states, layer, n - 1),
            targets,
            layer,
            |i: int| states[i].loss(),
            n,
        );
        the_least_grows(
            least_median(targets, states, layer, n - 1),
            targets,
            layer,
            |i: int| states[i].median(),
            n,
        );
    }
}

proof fn the_least_grows(
    rest: Option<Binary64>,
    targets: Seq<Target>,
    layer: Layer,
    measured: spec_fn(int) -> Option<Binary64>,
    n: int,
)
    requires
        0 < n <= targets.len(),
        least_of_own(rest, targets.take(n - 1), layer, measured),
    ensures
        least_of_own(
            if targets[n - 1].layer == layer {
                lesser_of(rest, measured(n - 1))
            } else {
                rest
            },
            targets.take(n),
            layer,
            measured,
        ),
{
    let few = targets.take(n - 1);
    let more = targets.take(n);
    let least = if targets[n - 1].layer == layer {
        lesser_of(rest, measured(n - 1))
    } else {
        rest
    };
    assert(more[n - 1] == targets[n - 1]);
    assert forall|i: int| 0 <= i < n - 1 implies #[trigger] more[i] == few[i] by {}
    if rest is Some {
        let i = choose|i: int|
            0 <= i < few.len() && (#[trigger] few[i]).layer == layer && measured(i) == rest;
        assert(more[i].layer == layer);
    }
    if least is Some {
        if least == rest {
            let i = choose|i: int|
                0 <= i < few.len() && (#[trigger] few[i]).layer == layer && measured(i) == rest;
            assert(more[i].layer == layer && measured(i) == least);
        } else {
            assert(more[n - 1].layer == layer && measured(n - 1) == least);
        }
    } else {
        assert forall|i: int|
            0 <= i < more.len() && (#[trigger] more[i]).layer == layer implies measured(
            i,
        ) is None by {
            if i < n - 1 {
                assert(few[i].layer == layer);
            }
        }
    }
    assert forall|i: int|
        0 <= i < more.len() && (#[trigger] more[i]).layer == layer && measured(i) is Some
            && !measured(i)->Some_0.nan() implies !least->Some_0.nan() && least->Some_0.steps()
        <= measured(i)->Some_0.steps() by {
        if i < n - 1 {
            assert(few[i].layer == layer);
        }
    }
}

/// A layer's loss and latency are each the least among its own targets, and
/// nobody else's. Layers without targets are not measured, and hosts have none
/// in common.
pub proof fn a_layer_is_measured_by_its_own_targets(
    cfg: Config,
    states: Seq<TargetModel>,
    layer: Layer,
)
    ensures
        aggregates(cfg, states).at(layer) is Some <==> exists|i: int|
            0 <= i < cfg.targets@.len() && (#[trigger] cfg.targets@[i]).layer == layer,
        aggregates(cfg, states).at(layer) is Some && layer != Layer::Host ==> least_of_own(
            aggregates(cfg, states).at(layer)->Some_0.loss_pct,
            cfg.targets@,
            layer,
            |i: int| states[i].loss(),
        ),
        aggregates(cfg, states).at(layer) is Some && layer != Layer::Host ==> least_of_own(
            aggregates(cfg, states).at(layer)->Some_0.latency_ms,
            cfg.targets@,
            layer,
            |i: int| states[i].median(),
        ),
        aggregates(cfg, states).at(layer) is Some && layer == Layer::Host ==> aggregates(
            cfg,
            states,
        ).at(layer)->Some_0.loss_pct is None && aggregates(cfg, states).at(
            layer,
        )->Some_0.latency_ms is None,
{
    let targets = cfg.targets@;
    the_least_is_found(targets, states, layer, targets.len() as int);
    assert(targets.take(targets.len() as int) =~= targets);
}

/// What targets of other layers measure has no part in a layer's measurements or
/// status.
pub proof fn other_layers_have_no_part(
    cfg: Config,
    a: Seq<TargetModel>,
    b: Seq<TargetModel>,
    layer: Layer,
)
    requires
        forall|i: int|
            0 <= i < cfg.targets@.len() && (#[trigger] cfg.targets@[i]).layer == layer ==> a[i]
                == b[i],
    ensures
        aggregates(cfg, a).at(layer) == aggregates(cfg, b).at(layer),
        statuses(cfg, a).at(layer) == statuses(cfg, b).at(layer),
{
    let targets = cfg.targets@;
    own_targets_decide(targets, a, b, layer, targets.len() as int);
    assert(any_up(targets, a, layer) == any_up(targets, b, layer)) by {
        assert forall|i: int|
            0 <= i < targets.len() && (#[trigger] targets[i]).layer == layer implies a[i].up
            == b[i].up by {}
    }
    assert(any_down(targets, a, layer) == any_down(targets, b, layer)) by {
        assert forall|i: int|
            0 <= i < targets.len() && (#[trigger] targets[i]).layer == layer implies a[i].up
            == b[i].up by {}
    }
}

proof fn own_targets_decide(
    targets: Seq<Target>,
    a: Seq<TargetModel>,
    b: Seq<TargetModel>,
    layer: Layer,
    n: int,
)
    requires
        n <= targets.len(),
        forall|i: int|
            0 <= i < targets.len() && (#[trigger] targets[i]).layer == layer ==> a[i] == b[i],
    ensures
        least_loss(targets, a, layer, n) == least_loss(targets, b, layer, n),
        least_median(targets, a, layer, n) == least_median(targets, b, layer, n),
    decreases n,
{
    if n > 0 {
        own_targets_decide(targets, a, b, layer, n - 1);
        assert(targets[n - 1].layer == layer ==> a[n - 1] == b[n - 1]);
    }
}

/// Whether at least one of a layer's own targets measures something, and all
/// that do are at the threshold or beyond it.
pub open spec fn all_reach(
    targets: Seq<Target>,
    layer: Layer,
    measured: spec_fn(int) -> Option<Binary64>,
    threshold: Binary64,
) -> bool {
    &&& !threshold.nan()
    &&& exists|i: int|
        0 <= i < targets.len() && (#[trigger] targets[i]).layer == layer && measured(i) is Some
            && !measured(i)->Some_0.nan()
    &&& forall|i: int|
        0 <= i < targets.len() && (#[trigger] targets[i]).layer == layer && measured(i) is Some
            && !measured(i)->Some_0.nan() ==> measured(i)->Some_0.steps() >= threshold.steps()
}

proof fn the_least_reaches_with_all(
    least: Option<Binary64>,
    targets: Seq<Target>,
    layer: Layer,
    measured: spec_fn(int) -> Option<Binary64>,
    threshold: Binary64,
)
    requires
        least_of_own(least, targets, layer, measured),
    ensures
        reached(least, threshold) == all_reach(targets, layer, measured, threshold),
{
    if least is Some {
        let i = choose|i: int|
            0 <= i < targets.len() && (#[trigger] targets[i]).layer == layer && measured(i)
                == least;
        assert(targets[i].layer == layer);
        if reached(least, threshold) {
            assert(!measured(i)->Some_0.nan());
        }
    }
}

/// The status of each layer by its own targets alone. The host layer is down if
/// one of its targets is, another if all of them are. The internet is degraded,
/// where that is watched for, if one of its targets is up and either the losses
/// or the latencies of all its targets that are measured are at their threshold
/// or beyond it.
pub proof fn statuses_follow_the_targets(cfg: Config, states: Seq<TargetModel>, layer: Layer)
    ensures
        ({
            let targets = cfg.targets@;
            let status = statuses(cfg, states).at(layer);
            let degraded = cfg.degraded.enabled && (all_reach(
                targets,
                layer,
                |i: int| states[i].loss(),
                cfg.degraded.loss_pct,
            ) || all_reach(
                targets,
                layer,
                |i: int| states[i].median(),
                cfg.degraded.latency_ms,
            ));
            &&& status is Some <==> exists|i: int|
                0 <= i < targets.len() && (#[trigger] targets[i]).layer == layer
            &&& status is Some && layer != Layer::Host ==> (status == Some(Status::Down)
                <==> forall|i: int|
                0 <= i < targets.len() && (#[trigger] targets[i]).layer == layer ==> !states[i].up)
            &&& status is Some && layer == Layer::Host ==> (status == Some(Status::Down)
                <==> exists|i: int|
                0 <= i < targets.len() && (#[trigger] targets[i]).layer == layer && !states[i].up)
            &&& status == Some(Status::Degraded) <==> layer == Layer::Internet && degraded
                && exists|i: int|
                0 <= i < targets.len() && (#[trigger] targets[i]).layer == layer && states[i].up
        }),
{
    let targets = cfg.targets@;
    the_least_is_found(targets, states, layer, targets.len() as int);
    assert(targets.take(targets.len() as int) =~= targets);
    the_least_reaches_with_all(
        least_loss(targets, states, layer, targets.len() as int),
        targets,
        layer,
        |i: int| states[i].loss(),
        cfg.degraded.loss_pct,
    );
    the_least_reaches_with_all(
        least_median(targets, states, layer, targets.len() as int),
        targets,
        layer,
        |i: int| states[i].median(),
        cfg.degraded.latency_ms,
    );
    assert(any_up(targets, states, layer) == exists|i: int|
        0 <= i < targets.len() && (#[trigger] targets[i]).layer == layer && states[i].up);
    assert(any_down(targets, states, layer) == exists|i: int|
        0 <= i < targets.len() && (#[trigger] targets[i]).layer == layer && !states[i].up);
    if any_up(targets, states, layer) {
        let i = choose|i: int|
            0 <= i < targets.len() && (#[trigger] targets[i]).layer == layer && states[i].up;
        assert(targets[i].layer == layer && states[i].up);
    }
}

/// If the internet's degradations are watched for, one of its targets is up and
/// every one of its targets that is measured is at a threshold or beyond it,
/// then the internet is degraded, whatever the targets of other layers measure.
pub proof fn a_bad_path_shows(cfg: Config, states: Seq<TargetModel>, up: int, measured: int)
    requires
        cfg.degraded.enabled,
        0 <= up < cfg.targets@.len(),
        cfg.targets@[up].layer == Layer::Internet,
        states[up].up,
        0 <= measured < cfg.targets@.len(),
        cfg.targets@[measured].layer == Layer::Internet,
        ({
            ||| states[measured].loss() is Some && forall|i: int|
                0 <= i < cfg.targets@.len() && (#[trigger] cfg.targets@[i]).layer == Layer::Internet
                    && states[i].loss() is Some ==> states[i].loss()->Some_0.at_least(
                    cfg.degraded.loss_pct,
                )
            ||| states[measured].median() is Some && forall|i: int|
                0 <= i < cfg.targets@.len() && (#[trigger] cfg.targets@[i]).layer == Layer::Internet
                    && states[i].median() is Some ==> states[i].median()->Some_0.at_least(
                    cfg.degraded.latency_ms,
                )
        }),
    ensures
        statuses(cfg, states).at(Layer::Internet) == Some(Status::Degraded),
{
    statuses_follow_the_targets(cfg, states, Layer::Internet);
    let targets = cfg.targets@;
    assert(targets[up].layer == Layer::Internet && states[up].up);
    let losses = |i: int| states[i].loss();
    let medians = |i: int| states[i].median();
    assert(targets[measured].layer == Layer::Internet);
    if states[measured].loss() is Some && forall|i: int|
        0 <= i < targets.len() && (#[trigger] targets[i]).layer == Layer::Internet
            && states[i].loss() is Some ==> states[i].loss()->Some_0.at_least(
            cfg.degraded.loss_pct,
        ) {
        assert(all_reach(targets, Layer::Internet, losses, cfg.degraded.loss_pct));
    } else {
        assert(all_reach(targets, Layer::Internet, medians, cfg.degraded.latency_ms));
    }
}

/// A map has one place for each layer.
pub proof fn layers_have_their_places(m: LayerMap<Status>, l: Layer, k: Layer, v: Option<Status>)
    ensures
        m.at(Layer::Lan) == m.lan,
        m.at(Layer::Gateway) == m.gateway,
        m.at(Layer::Internet) == m.internet,
        m.at(Layer::Dns) == m.dns,
        m.at(Layer::Host) == m.host,
        m.with(l, v).at(l) == v,
        k != l ==> m.with(l, v).at(k) == m.at(k),
{
}

} // verus!
