//! From the state of the targets to the status of their layers.

use crate::binary64::Binary64;
use crate::config::{Config, Target};
use crate::layer::{Layer, LayerMap, Status};
use crate::target::{TargetModel, TargetState};
use vstd::prelude::*;

verus! {

/// The loss and the latency of a layer: the least among its targets, because
/// only a problem on the shared path affects every one of them at once.
#[derive(Clone, Copy, Debug)]
pub struct LayerAgg {
    pub loss_pct: Option<Binary64>,
    pub latency_ms: Option<Binary64>,
}

impl Config {
    /// The window is of a size that can be counted in, and its span in seconds
    /// is a `u64`.
    pub open spec fn window_fits(self) -> bool {
        &&& self.window_samples < 0x20_0000_0000_0000
        &&& self.window_samples * self.interval_secs <= u64::MAX
    }
}

/// Whether some target belongs to the layer.
pub open spec fn has_layer(targets: Seq<Target>, layer: Layer) -> bool {
    exists|i: int| 0 <= i < targets.len() && (#[trigger] targets[i]).layer == layer
}

/// Whether some target of the layer is up.
pub open spec fn any_up(targets: Seq<Target>, states: Seq<TargetModel>, layer: Layer) -> bool {
    exists|i: int|
        0 <= i < targets.len() && (#[trigger] targets[i]).layer == layer && states[i].up
}

/// Whether some target of the layer is down.
pub open spec fn any_down(targets: Seq<Target>, states: Seq<TargetModel>, layer: Layer) -> bool {
    exists|i: int|
        0 <= i < targets.len() && (#[trigger] targets[i]).layer == layer && !states[i].up
}

/// The lesser of two measurements, of which either may be missing.
pub open spec fn lesser_of(a: Option<Binary64>, b: Option<Binary64>) -> Option<Binary64> {
    match (a, b) {
        (Some(x), Some(y)) => Some(x.lesser(y)),
        (Some(x), None) => Some(x),
        (None, _) => b,
    }
}

/// The least loss among the layer's targets before `n`.
pub open spec fn least_loss(
    targets: Seq<Target>,
    states: Seq<TargetModel>,
    layer: Layer,
    n: int,
) -> Option<Binary64>
    decreases n,
{
    if n <= 0 {
        None
    } else {
        let rest = least_loss(targets, states, layer, n - 1);
        if targets[n - 1].layer == layer {
            lesser_of(rest, states[n - 1].loss())
        } else {
            rest
        }
    }
}

/// The least median latency among the layer's targets before `n`.
pub open spec fn least_median(
    targets: Seq<Target>,
    states: Seq<TargetModel>,
    layer: Layer,
    n: int,
) -> Option<Binary64>
    decreases n,
{
    if n <= 0 {
        None
    } else {
        let rest = least_median(targets, states, layer, n - 1);
        if targets[n - 1].layer == layer {
            lesser_of(rest, states[n - 1].median())
        } else {
            rest
        }
    }
}

/// The loss and latency of a layer. Hosts have none in common.
pub open spec fn agg_of(targets: Seq<Target>, states: Seq<TargetModel>, layer: Layer) -> LayerAgg {
    if layer == Layer::Host {
        LayerAgg { loss_pct: None, latency_ms: None }
    } else {
        LayerAgg {
            loss_pct: least_loss(targets, states, layer, targets.len() as int),
            latency_ms: least_median(targets, states, layer, targets.len() as int),
        }
    }
}

/// Whether a measurement has reached its threshold.
pub open spec fn reached(measured: Option<Binary64>, threshold: Binary64) -> bool {
    match measured {
        Some(m) => m.at_least(threshold),
        None => false,
    }
}

/// The status of a layer, as its targets stand: the host layer is down if any
/// of its targets is, another if all of them are. The internet is degraded if
/// it is up with too much loss or too much latency.
pub open spec fn status_of(cfg: Config, states: Seq<TargetModel>, layer: Layer) -> Status {
    let targets = cfg.targets@;
    if layer == Layer::Host {
        if any_down(targets, states, layer) {
            Status::Down
        } else {
            Status::Up
        }
    } else if !any_up(targets, states, layer) {
        Status::Down
    } else if layer == Layer::Internet && cfg.degraded.enabled && {
        let agg = agg_of(targets, states, layer);
        reached(agg.loss_pct, cfg.degraded.loss_pct) || reached(
            agg.latency_ms,
            cfg.degraded.latency_ms,
        )
    } {
        Status::Degraded
    } else {
        Status::Up
    }
}

/// The status of every layer that has targets.
pub open spec fn statuses(cfg: Config, states: Seq<TargetModel>) -> LayerMap<Status> {
    LayerMap::from_fn(
        |l: Layer|
            if has_layer(cfg.targets@, l) {
                Some(status_of(cfg, states, l))
            } else {
                None
            },
    )
}

/// The loss and latency of every layer that has targets.
pub open spec fn aggregates(cfg: Config, states: Seq<TargetModel>) -> LayerMap<LayerAgg> {
    LayerMap::from_fn(
        |l: Layer|
            if has_layer(cfg.targets@, l) {
                Some(agg_of(cfg.targets@, states, l))
            } else {
                None
            },
    )
}

/// What a list of target states says.
pub open spec fn models_of(states: Seq<TargetState>) -> Seq<TargetModel> {
    states.map_values(|s: TargetState| s@)
}

/// Whether some target belongs to the layer.
pub(crate) fn layer_present(targets: &Vec<Target>, layer: Layer) -> (r: bool)
    ensures
        r == has_layer(targets@, layer),
{
    let mut i: usize = 0;
    while i < targets.len()
        invariant
            i <= targets@.len(),
            forall|j: int| 0 <= j < i ==> (#[trigger] targets@[j]).layer != layer,
        decreases targets@.len() - i,
    {
        if targets[i].layer == layer {
            return true;
        }
        i = i + 1;
    }
    false
}

/// The lesser of two measurements, of which either may be missing.
pub(crate) fn min_measured(a: Option<Binary64>, b: Option<Binary64>) -> (r: Option<Binary64>)
    ensures
        r == lesser_of(a, b),
{
    match (a, b) {
        (Some(x), Some(y)) => Some(x.min(y)),
        (Some(x), None) => Some(x),
        (None, _) => b,
    }
}

/// Whether a measurement has reached its threshold.
pub(crate) fn has_reached(measured: Option<Binary64>, threshold: Binary64) -> (r: bool)
    ensures
        r == reached(measured, threshold),
{
    match measured {
        Some(m) => m.ge(threshold),
        None => false,
    }
}

/// The loss and latency of a layer, if it has targets.
pub(crate) fn measure_layer(cfg: &Config, states: &Vec<TargetState>, layer: Layer) -> (r: Option<LayerAgg>)
    requires
        states@.len() == cfg.targets@.len(),
        forall|i: int|
            0 <= i < states@.len() ==> (#[trigger] states@[i])@.window.len() < 0x20_0000_0000_0000,
    ensures
        r == aggregates(*cfg, models_of(states@)).at(layer),
{
    let ghost models = models_of(states@);
    let mut present: bool = false;
    let mut loss: Option<Binary64> = None;
    let mut latency: Option<Binary64> = None;
    let mut i: usize = 0;
    while i < cfg.targets.len()
        invariant
            i <= cfg.targets@.len(),
            states@.len() == cfg.targets@.len(),
            models == models_of(states@),
            forall|j: int|
                0 <= j < states@.len() ==> (#[trigger] states@[j])@.window.len()
                    < 0x20_0000_0000_0000,
            present == exists|j: int|
                0 <= j < i && (#[trigger] cfg.targets@[j]).layer == layer,
            layer != Layer::Host ==> loss == least_loss(cfg.targets@, models, layer, i as int),
            layer != Layer::Host ==> latency == least_median(
                cfg.targets@,
                models,
                layer,
                i as int,
            ),
            layer == Layer::Host ==> loss is None && latency is None,
        decreases cfg.targets@.len() - i,
    {
        if cfg.targets[i].layer == layer {
            present = true;
            if layer != Layer::Host {
                loss = min_measured(loss, states[i].loss_pct());
                latency = min_measured(latency, states[i].median_ms());
            }
        }
        i = i + 1;
    }
    if present {
        Some(LayerAgg { loss_pct: loss, latency_ms: latency })
    } else {
        None
    }
}

/// The status of a layer, if it has targets.
pub(crate) fn judge_layer(
    cfg: &Config,
    states: &Vec<TargetState>,
    agg: &Option<LayerAgg>,
    layer: Layer,
) -> (r: Option<Status>)
    requires
        states@.len() == cfg.targets@.len(),
        *agg == aggregates(*cfg, models_of(states@)).at(layer),
    ensures
        r == statuses(*cfg, models_of(states@)).at(layer),
{
    let ghost models = models_of(states@);
    let Some(measured) = agg else {
        return None;
    };
    let mut some_up: bool = false;
    let mut some_down: bool = false;
    let mut i: usize = 0;
    while i < cfg.targets.len()
        invariant
            i <= cfg.targets@.len(),
            states@.len() == cfg.targets@.len(),
            models == models_of(states@),
            some_up == exists|j: int|
                0 <= j < i && (#[trigger] cfg.targets@[j]).layer == layer && models[j].up,
            some_down == exists|j: int|
                0 <= j < i && (#[trigger] cfg.targets@[j]).layer == layer && !models[j].up,
        decreases cfg.targets@.len() - i,
    {
        if cfg.targets[i].layer == layer {
            assert(models[i as int] == states@[i as int]@);
            if states[i].is_up() {
                some_up = true;
            } else {
                some_down = true;
            }
        }
        i = i + 1;
    }
    assert(some_up == any_up(cfg.targets@, models, layer));
    assert(some_down == any_down(cfg.targets@, models, layer));
    // Host targets are independent machines: the card goes red if any of them
    // is down.
    if layer == Layer::Host {
        return Some(
            if some_down {
                Status::Down
            } else {
                Status::Up
            },
        );
    }
    if !some_up {
        return Some(Status::Down);
    }
    if layer == Layer::Internet && cfg.degraded.enabled && (has_reached(
        measured.loss_pct,
        cfg.degraded.loss_pct,
    ) || has_reached(measured.latency_ms, cfg.degraded.latency_ms)) {
        return Some(Status::Degraded);
    }
    Some(Status::Up)
}

} // verus!
