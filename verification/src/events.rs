//! What happened, and how it is put into words.

use crate::binary64::Binary64;
use crate::config::Config;
use crate::layer::{Layer, LayerMap, Status};
use crate::status::LayerAgg;
use crate::text;
use crate::text::{push_decimal, push_decimal_two};
use vstd::prelude::*;
use vstd::string::*;

verus! {

/// A duration in its two leading units.
pub open spec fn duration_text(secs: u64) -> Seq<char> {
    if secs < 60 {
        text::decimal(secs as nat) + "s"@
    } else if secs < 3600 {
        text::decimal((secs / 60) as nat) + "m "@ + text::decimal_two((secs % 60) as nat) + "s"@
    } else if secs < 86400 {
        text::decimal((secs / 3600) as nat) + "h "@ + text::decimal_two(
            ((secs % 3600) / 60) as nat,
        ) + "m"@
    } else {
        text::decimal((secs / 86400) as nat) + "d "@ + text::decimal(
            ((secs % 86400) / 3600) as nat,
        ) + "h"@
    }
}

/// A duration in its two leading units.
pub fn fmt_duration(secs: u64) -> (r: String)
    ensures
        r@ == duration_text(secs),
{
    let mut s = String::new();
    if secs < 60 {
        push_decimal(&mut s, secs);
        s.append("s");
    } else if secs < 3600 {
        push_decimal(&mut s, secs / 60);
        s.append("m ");
        push_decimal_two(&mut s, secs % 60);
        s.append("s");
    } else if secs < 86400 {
        push_decimal(&mut s, secs / 3600);
        s.append("h ");
        push_decimal_two(&mut s, (secs % 3600) / 60);
        s.append("m");
    } else {
        push_decimal(&mut s, secs / 86400);
        s.append("d ");
        push_decimal(&mut s, (secs % 86400) / 3600);
        s.append("h");
    }
    assert(s@ =~= duration_text(secs));
    s
}

/// Something that happened, to be recorded and perhaps announced.
pub struct PendingEvent {
    pub layer: Layer,
    pub kind: &'static str,
    /// Host-layer events carry the target name so state can be rehydrated
    /// per host after a restart; ladder events are layer-wide (None).
    pub target: Option<String>,
    pub title: String,
    pub message: String,
    pub duration_secs: Option<u64>,
    pub notify: bool,
    pub priority: u8,
    pub tags: &'static str,
}

/// What a pending event says.
pub struct EventModel {
    pub layer: Layer,
    pub kind: Seq<char>,
    pub target: Option<Seq<char>>,
    pub title: Seq<char>,
    pub message: Seq<char>,
    pub duration_secs: Option<u64>,
    pub notify: bool,
    pub priority: u8,
    pub tags: Seq<char>,
}

impl View for PendingEvent {
    type V = EventModel;

    open spec fn view(&self) -> EventModel {
        EventModel {
            layer: self.layer,
            kind: self.kind@,
            target: match self.target {
                Some(t) => Some(t@),
                None => None,
            },
            title: self.title@,
            message: self.message@,
            duration_secs: self.duration_secs,
            notify: self.notify,
            priority: self.priority,
            tags: self.tags@,
        }
    }
}

/// The kinds of event are told apart by their names.
pub proof fn kinds_are_distinct()
    ensures
        "down"@ != "up"@,
        "down"@ != "still_down"@,
        "down"@ != "degraded"@,
        "down"@ != "degraded_end"@,
        "up"@ != "still_down"@,
        "up"@ != "degraded"@,
        "up"@ != "degraded_end"@,
        "still_down"@ != "degraded"@,
        "still_down"@ != "degraded_end"@,
        "degraded"@ != "degraded_end"@,
{
    reveal_strlit("down");
    reveal_strlit("up");
    reveal_strlit("still_down");
    reveal_strlit("degraded");
    reveal_strlit("degraded_end");
    assert("down"@.len() == 4);
    assert("up"@.len() == 2);
    assert("still_down"@.len() == 10);
    assert("degraded"@.len() == 8);
    assert("degraded_end"@.len() == 12);
}

/// What a list of pending events says.
pub open spec fn events_of(events: Seq<PendingEvent>) -> Seq<EventModel> {
    events.map_values(|e: PendingEvent| e@)
}

/// The event, if there is one, as a sequence.
pub open spec fn listed(event: Option<EventModel>) -> Seq<EventModel> {
    match event {
        Some(e) => seq![e],
        None => Seq::empty(),
    }
}

/// Appends the event, if there is one.
pub(crate) fn push_event(events: &mut Vec<PendingEvent>, event: Option<PendingEvent>)
    ensures
        events_of(final(events)@) == events_of(old(events)@) + listed(
            match event {
                Some(e) => Some(e@),
                None => None,
            },
        ),
{
    if let Some(e) = event {
        events.push(e);
    }
    assert(events_of(events@) =~= events_of(old(events)@) + listed(
        match event {
            Some(e) => Some(e@),
            None => None,
        },
    ));
}

/// The title of an outage of a layer.
pub open spec fn outage_title(layer: Layer) -> Seq<char> {
    match layer {
        Layer::Lan => "LAN DOWN"@,
        Layer::Gateway => "WAN gateway DOWN"@,
        Layer::Internet => "Internet DOWN"@,
        Layer::Dns => "DNS DOWN"@,
        Layer::Host => "Watched host DOWN"@,
    }
}

/// The outage of a layer in words, with the layer at fault.
pub open spec fn outage_message(layer: Layer, cur: LayerMap<Status>) -> Seq<char> {
    match layer {
        Layer::Lan =>
            "The Pi can't reach the LAN router - local network problem (or the Pi itself)."@,
        Layer::Gateway => "The WAN gateway stopped answering pings from the LAN."@,
        Layer::Internet => match cur.gateway {
            Some(Status::Down) =>
                "Internet is unreachable and the WAN gateway isn't answering either - the gateway may be offline or rebooting."@,
            Some(_) =>
                "Internet is unreachable but the WAN gateway still responds - the uplink is down."@,
            None => "Internet is unreachable through the uplink."@,
        },
        Layer::Dns => match cur.internet {
            Some(Status::Down) => "DNS lookups failing (internet is down)."@,
            _ =>
                "DNS lookups are failing while the internet looks fine - check your DNS server."@,
        },
        Layer::Host => "A watched host stopped responding."@,
    }
}

/// The title of an outage of a layer.
pub fn down_title(layer: Layer) -> (r: String)
    ensures
        r@ == outage_title(layer),
{
    match layer {
        Layer::Lan => "LAN DOWN".to_owned(),
        Layer::Gateway => "WAN gateway DOWN".to_owned(),
        Layer::Internet => "Internet DOWN".to_owned(),
        Layer::Dns => "DNS DOWN".to_owned(),
        // Host events carry their own per-target titles; this is a fallback.
        Layer::Host => "Watched host DOWN".to_owned(),
    }
}

/// The outage of a layer in words, with the layer at fault.
pub fn down_message(layer: Layer, cur: &LayerMap<Status>) -> (r: String)
    ensures
        r@ == outage_message(layer, *cur),
{
    match layer {
        Layer::Lan =>
            "The Pi can't reach the LAN router - local network problem (or the Pi itself).".to_owned(),
        Layer::Gateway => "The WAN gateway stopped answering pings from the LAN.".to_owned(),
        Layer::Internet => match cur.gateway {
            Some(Status::Down) =>
                "Internet is unreachable and the WAN gateway isn't answering either - the gateway may be offline or rebooting.".to_owned(),
            Some(_) =>
                "Internet is unreachable but the WAN gateway still responds - the uplink is down.".to_owned(),
            None => "Internet is unreachable through the uplink.".to_owned(),
        },
        Layer::Dns => match cur.internet {
            Some(Status::Down) => "DNS lookups failing (internet is down).".to_owned(),
            _ =>
                "DNS lookups are failing while the internet looks fine - check your DNS server.".to_owned(),
        },
        Layer::Host => "A watched host stopped responding.".to_owned(),
    }
}

/// A latency in whole milliseconds.
pub open spec fn latency_text(ms: Option<Binary64>) -> Seq<char> {
    match ms {
        Some(m) => m.rounded_text() + " ms"@,
        None => "n/a"@,
    }
}

/// A share in whole percent.
pub open spec fn percent_text(pct: Option<Binary64>) -> Seq<char> {
    match pct {
        Some(p) => p.rounded_text() + "%"@,
        None => "n/a"@,
    }
}

/// A degradation in words: what was measured, and the thresholds.
pub open spec fn degraded_text(agg: LayerAgg, cfg: Config) -> Seq<char> {
    let loss = match agg.loss_pct {
        Some(l) => l,
        None => Binary64 { bits: 0 },
    };
    loss.rounded_text() + "% loss, median "@ + latency_text(agg.latency_ms) + " over the last "@
        + duration_text((cfg.window_samples * cfg.interval_secs) as u64) + " - thresholds are "@
        + cfg.degraded.loss_pct.rounded_text() + "% / "@ + cfg.degraded.latency_ms.rounded_text()
        + " ms."@
}

pub(crate) fn push_latency(s: &mut String, ms: Option<Binary64>)
    ensures
        final(s)@ == old(s)@ + latency_text(ms),
{
    match ms {
        Some(m) => {
            m.push_rounded(s);
            s.append(" ms");
        },
        None => {
            s.append("n/a");
        },
    }
    assert(s@ =~= old(s)@ + latency_text(ms));
}

pub(crate) fn push_percent(s: &mut String, pct: Option<Binary64>)
    ensures
        final(s)@ == old(s)@ + percent_text(pct),
{
    match pct {
        Some(p) => {
            p.push_rounded(s);
            s.append("%");
        },
        None => {
            s.append("n/a");
        },
    }
    assert(s@ =~= old(s)@ + percent_text(pct));
}

pub(crate) fn degraded_message(agg: &LayerAgg, cfg: &Config) -> (r: String)
    requires
        cfg.window_fits(),
    ensures
        r@ == degraded_text(*agg, *cfg),
{
    let loss: Binary64 = match agg.loss_pct {
        Some(l) => l,
        None => Binary64::from_bits(0),
    };
    let mut s = String::new();
    loss.push_rounded(&mut s);
    s.append("% loss, median ");
    push_latency(&mut s, agg.latency_ms);
    s.append(" over the last ");
    s.append(fmt_duration(cfg.window_samples as u64 * cfg.interval_secs).as_str());
    s.append(" - thresholds are ");
    cfg.degraded.loss_pct.push_rounded(&mut s);
    s.append("% / ");
    cfg.degraded.latency_ms.push_rounded(&mut s);
    s.append(" ms.");
    assert(s@ =~= degraded_text(*agg, *cfg));
    s
}

} // verus!
