//! The state of the network, as it is shown.

use crate::binary64::Binary64;
use crate::events::{latency_text, percent_text, push_latency, push_percent};
use crate::layer::{Layer, LayerMap, Status};
use crate::status::LayerAgg;
use vstd::prelude::*;
use vstd::string::*;

verus! {

/// The state of every target and layer, as it is shown.
#[derive(Clone, Debug)]
pub struct Snapshot {
    pub updated: u64,
    pub interval_secs: u64,
    pub verdict: String,
    pub verdict_status: Status,
    pub layers: Vec<LayerSnap>,
}

#[derive(Clone, Debug)]
pub struct LayerSnap {
    pub layer: Layer,
    pub label: &'static str,
    pub status: Status,
    pub since: u64,
    pub loss_pct: Option<Binary64>,
    pub latency_ms: Option<Binary64>,
    pub targets: Vec<TargetSnap>,
}

#[derive(Clone, Debug)]
pub struct TargetSnap {
    pub name: String,
    pub up: bool,
    pub last_ms: Option<Binary64>,
    pub loss_pct: Option<Binary64>,
}

/// What a target's snapshot says.
pub struct TargetSnapModel {
    pub name: Seq<char>,
    pub up: bool,
    pub last_ms: Option<Binary64>,
    pub loss_pct: Option<Binary64>,
}

/// What a layer's snapshot says.
pub struct LayerSnapModel {
    pub layer: Layer,
    pub label: Seq<char>,
    pub status: Status,
    pub since: u64,
    pub loss_pct: Option<Binary64>,
    pub latency_ms: Option<Binary64>,
    pub targets: Seq<TargetSnapModel>,
}

impl View for TargetSnap {
    type V = TargetSnapModel;

    open spec fn view(&self) -> TargetSnapModel {
        TargetSnapModel {
            name: self.name@,
            up: self.up,
            last_ms: self.last_ms,
            loss_pct: self.loss_pct,
        }
    }
}

impl View for LayerSnap {
    type V = LayerSnapModel;

    open spec fn view(&self) -> LayerSnapModel {
        LayerSnapModel {
            layer: self.layer,
            label: self.label@,
            status: self.status,
            since: self.since,
            loss_pct: self.loss_pct,
            latency_ms: self.latency_ms,
            targets: self.targets@.map_values(|t: TargetSnap| t@),
        }
    }
}

/// What a list of layer snapshots says.
pub open spec fn layer_snaps_of(snaps: Seq<LayerSnap>) -> Seq<LayerSnapModel> {
    snaps.map_values(|l: LayerSnap| l@)
}

/// The measurements of the internet in words.
pub open spec fn detail_text(agg: Option<LayerAgg>) -> Seq<char> {
    let lat = match agg {
        Some(a) => a.latency_ms,
        None => None,
    };
    let loss = match agg {
        Some(a) => a.loss_pct,
        None => None,
    };
    latency_text(lat) + " median, "@ + percent_text(loss) + " loss"@
}

/// The verdict on the internet in words, with the layer at fault.
pub open spec fn verdict_text(cur: LayerMap<Status>, agg: Option<LayerAgg>) -> Seq<char> {
    match cur.internet {
        None => "Monitoring (no internet-layer targets configured)"@,
        Some(Status::Up) => "Internet OK - "@ + detail_text(agg),
        Some(Status::Degraded) => "Internet DEGRADED - "@ + detail_text(agg),
        Some(Status::Down) => if cur.lan == Some(Status::Down) {
            "Pi is cut off from the LAN - can't judge the uplink"@
        } else if cur.gateway == Some(Status::Down) {
            "OUTAGE - WAN gateway unreachable"@
        } else {
            "UPLINK OUTAGE - gateway reachable, uplink down"@
        },
    }
}

/// The verdict on the internet.
pub open spec fn verdict_on(cur: LayerMap<Status>) -> Status {
    match cur.internet {
        Some(s) => s,
        None => Status::Up,
    }
}

/// The verdict on the internet.
pub fn make_verdict(cur: &LayerMap<Status>, aggs: &LayerMap<LayerAgg>) -> (r: (String, Status))
    ensures
        r.0@ == verdict_text(*cur, aggs.internet),
        r.1 == verdict_on(*cur),
{
    let Some(inet) = cur.internet else {
        return ("Monitoring (no internet-layer targets configured)".to_owned(), Status::Up);
    };
    match inet {
        Status::Up => {
            let mut s = "Internet OK - ".to_owned();
            push_detail(&mut s, &aggs.internet);
            (s, Status::Up)
        },
        Status::Degraded => {
            let mut s = "Internet DEGRADED - ".to_owned();
            push_detail(&mut s, &aggs.internet);
            (s, Status::Degraded)
        },
        Status::Down => {
            let lan_down: bool = matches!(cur.lan, Some(Status::Down));
            let gateway_down: bool = matches!(cur.gateway, Some(Status::Down));
            if lan_down {
                (
                    "Pi is cut off from the LAN - can't judge the uplink".to_owned(),
                    Status::Down,
                )
            } else if gateway_down {
                ("OUTAGE - WAN gateway unreachable".to_owned(), Status::Down)
            } else {
                ("UPLINK OUTAGE - gateway reachable, uplink down".to_owned(), Status::Down)
            }
        },
    }
}

pub(crate) fn push_detail(s: &mut String, agg: &Option<LayerAgg>)
    ensures
        final(s)@ == old(s)@ + detail_text(*agg),
{
    let (lat, loss): (Option<Binary64>, Option<Binary64>) = match agg {
        Some(a) => (a.latency_ms, a.loss_pct),
        None => (None, None),
    };
    push_latency(s, lat);
    s.append(" median, ");
    push_percent(s, loss);
    s.append(" loss");
    assert(s@ =~= old(s)@ + detail_text(*agg));
}

} // verus!
