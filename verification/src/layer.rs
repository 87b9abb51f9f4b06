//! The layers of the network and which of them depend on which.

use vstd::prelude::*;

verus! {

/// The probe ladder, plus a free-form "host" layer for any other machines
/// worth watching. When a layer this one depends on is down, its alerts are
/// suppressed (recorded, but not notified), because they are implied.
#[derive(Clone, Copy, PartialEq, Eq, Hash, Debug, Structural)]
pub enum Layer {
    Lan,
    Gateway,
    Internet,
    Dns,
    /// User-chosen extra hosts: charted and alerted per target, never part of
    /// the internet verdict or the ladder.
    Host,
}

#[derive(Clone, Copy, PartialEq, Eq, Debug, Structural)]
pub enum Status {
    Up,
    Degraded,
    Down,
}

impl Layer {
    /// Every layer, in rank order.
    pub const ALL: [Layer; 5] = [
        Layer::Lan,
        Layer::Gateway,
        Layer::Internet,
        Layer::Dns,
        Layer::Host,
    ];

    /// The dependency ladder in rank order - every layer with layer-level
    /// alerting. `Host` is deliberately absent: its targets alert per host.
    pub const LADDER: [Layer; 4] = [Layer::Lan, Layer::Gateway, Layer::Internet, Layer::Dns];

    /// The name by which a layer is stored and configured.
    pub open spec fn name(self) -> Seq<char> {
        match self {
            Layer::Lan => "lan"@,
            Layer::Gateway => "gateway"@,
            Layer::Internet => "internet"@,
            Layer::Dns => "dns"@,
            Layer::Host => "host"@,
        }
    }

    /// The name by which a layer is shown.
    pub open spec fn title(self) -> Seq<char> {
        match self {
            Layer::Lan => "LAN"@,
            Layer::Gateway => "WAN gateway"@,
            Layer::Internet => "Internet"@,
            Layer::Dns => "DNS"@,
            Layer::Host => "Watched hosts"@,
        }
    }

    pub fn as_str(self) -> (r: &'static str)
        ensures
            r@ == self.name(),
    {
        match self {
            Layer::Lan => "lan",
            Layer::Gateway => "gateway",
            Layer::Internet => "internet",
            Layer::Dns => "dns",
            Layer::Host => "host",
        }
    }

    pub fn label(self) -> (r: &'static str)
        ensures
            r@ == self.title(),
    {
        match self {
            Layer::Lan => "LAN",
            Layer::Gateway => "WAN gateway",
            Layer::Internet => "Internet",
            Layer::Dns => "DNS",
            Layer::Host => "Watched hosts",
        }
    }

    /// The layers below: those whose outage makes this one's failure
    /// unremarkable.
    pub open spec fn below(self) -> Seq<Layer> {
        match self {
            Layer::Lan => seq![],
            Layer::Gateway => seq![Layer::Lan],
            Layer::Internet => seq![Layer::Lan, Layer::Gateway],
            Layer::Dns => seq![Layer::Lan, Layer::Gateway, Layer::Internet],
            Layer::Host => seq![Layer::Lan],
        }
    }

    /// Layers whose outage makes this one's failure unremarkable. A watched
    /// host only depends on the LAN: the internet being down says nothing
    /// about a NAS in the closet.
    pub fn implied_by(self) -> (r: Vec<Layer>)
        ensures
            r@ == self.below(),
    {
        match self {
            Layer::Lan => Vec::new(),
            Layer::Gateway => vec![Layer::Lan],
            Layer::Internet => vec![Layer::Lan, Layer::Gateway],
            Layer::Dns => vec![Layer::Lan, Layer::Gateway, Layer::Internet],
            Layer::Host => vec![Layer::Lan],
        }
    }
}

/// At most one value per layer.
#[derive(Clone, Copy, Debug)]
pub struct LayerMap<V> {
    pub lan: Option<V>,
    pub gateway: Option<V>,
    pub internet: Option<V>,
    pub dns: Option<V>,
    pub host: Option<V>,
}

impl<V> LayerMap<V> {
    /// The value of a layer.
    pub open spec fn at(self, layer: Layer) -> Option<V> {
        match layer {
            Layer::Lan => self.lan,
            Layer::Gateway => self.gateway,
            Layer::Internet => self.internet,
            Layer::Dns => self.dns,
            Layer::Host => self.host,
        }
    }

    /// The map in which one layer has another value.
    pub open spec fn with(self, layer: Layer, value: Option<V>) -> LayerMap<V> {
        match layer {
            Layer::Lan => LayerMap { lan: value, ..self },
            Layer::Gateway => LayerMap { gateway: value, ..self },
            Layer::Internet => LayerMap { internet: value, ..self },
            Layer::Dns => LayerMap { dns: value, ..self },
            Layer::Host => LayerMap { host: value, ..self },
        }
    }

    /// The map that a function of the layer describes.
    pub open spec fn from_fn(f: spec_fn(Layer) -> Option<V>) -> LayerMap<V> {
        LayerMap {
            lan: f(Layer::Lan),
            gateway: f(Layer::Gateway),
            internet: f(Layer::Internet),
            dns: f(Layer::Dns),
            host: f(Layer::Host),
        }
    }

    pub fn new() -> (r: LayerMap<V>)
        ensures
            forall|l: Layer| #[trigger] r.at(l) is None,
    {
        LayerMap { lan: None, gateway: None, internet: None, dns: None, host: None }
    }

    pub fn get(&self, layer: Layer) -> (r: Option<&V>)
        ensures
            match r {
                Some(v) => self.at(layer) == Some(*v),
                None => self.at(layer) is None,
            },
    {
        match layer {
            Layer::Lan => self.lan.as_ref(),
            Layer::Gateway => self.gateway.as_ref(),
            Layer::Internet => self.internet.as_ref(),
            Layer::Dns => self.dns.as_ref(),
            Layer::Host => self.host.as_ref(),
        }
    }

    pub fn insert(&mut self, layer: Layer, value: V)
        ensures
            *final(self) == old(self).with(layer, Some(value)),
    {
        match layer {
            Layer::Lan => self.lan = Some(value),
            Layer::Gateway => self.gateway = Some(value),
            Layer::Internet => self.internet = Some(value),
            Layer::Dns => self.dns = Some(value),
            Layer::Host => self.host = Some(value),
        }
    }
}

/// Whether a layer is down.
pub open spec fn is_down(layer: Layer, cur: LayerMap<Status>) -> bool {
    cur.at(layer) == Some(Status::Down)
}

/// Whether some layer below is down.
pub open spec fn implied(layer: Layer, cur: LayerMap<Status>) -> bool {
    exists|i: int| 0 <= i < layer.below().len() && is_down(#[trigger] layer.below()[i], cur)
}

/// Whether an outage of `layer` is implied by an outage of a layer below it.
pub fn implied_down(layer: Layer, cur: &LayerMap<Status>) -> (r: bool)
    ensures
        r == implied(layer, *cur),
{
    let below = layer.implied_by();
    let mut i: usize = 0;
    while i < below.len()
        invariant
            i <= below@.len(),
            below@ == layer.below(),
            forall|j: int| 0 <= j < i ==> !is_down(#[trigger] layer.below()[j], *cur),
        decreases below@.len() - i,
    {
        if let Some(status) = cur.get(below[i]) {
            if *status == Status::Down {
                assert(is_down(layer.below()[i as int], *cur));
                return true;
            }
        }
        i = i + 1;
    }
    false
}

/// The outages that imply another, layer by layer.
pub proof fn implied_unfolds(cur: LayerMap<Status>)
    ensures
        !implied(Layer::Lan, cur),
        implied(Layer::Gateway, cur) == is_down(Layer::Lan, cur),
        implied(Layer::Internet, cur) == (is_down(Layer::Lan, cur) || is_down(
            Layer::Gateway,
            cur,
        )),
        implied(Layer::Dns, cur) == (is_down(Layer::Lan, cur) || is_down(Layer::Gateway, cur)
            || is_down(Layer::Internet, cur)),
        implied(Layer::Host, cur) == is_down(Layer::Lan, cur),
{
    let g = Layer::Gateway.below();
    let i = Layer::Internet.below();
    let d = Layer::Dns.below();
    let h = Layer::Host.below();
    if is_down(Layer::Lan, cur) {
        assert(is_down(g[0], cur) && is_down(i[0], cur) && is_down(d[0], cur) && is_down(h[0], cur));
    }
    if is_down(Layer::Gateway, cur) {
        assert(is_down(i[1], cur) && is_down(d[1], cur));
    }
    if is_down(Layer::Internet, cur) {
        assert(is_down(d[2], cur));
    }
}

} // verus!
