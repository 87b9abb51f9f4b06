//! The alert state of one layer of the ladder.

use crate::config::Config;
use crate::events::{
    degraded_message, degraded_text, down_message, down_title, duration_text, events_of,
    fmt_duration, listed, outage_message, outage_title, push_event, EventModel, PendingEvent,
};
use crate::layer;
use crate::layer::{implied_down, Layer, LayerMap, Status};
use crate::status::LayerAgg;
use crate::target;
use crate::target::secs_between;
use vstd::prelude::*;
use vstd::string::*;

verus! {

/// What is known of one layer.
#[derive(Clone, Copy, Debug)]
pub struct LayerState {
    pub status: Status,
    /// When the status last changed, by the wall clock.
    pub since: u64,
    /// When this process saw it change, by the monotonic clock.
    pub since_mono: Option<u64>,
    /// Whether the current outage was announced.
    pub notified_down: bool,
    /// Whether the current degradation was announced.
    pub notified_degraded: bool,
    /// When a degradation was last announced, by the monotonic clock.
    pub last_degraded_alert: Option<u64>,
}

/// The event that a ladder layer went down.
pub open spec fn down_event(layer: Layer, cur: LayerMap<Status>) -> EventModel {
    EventModel {
        layer,
        kind: "down"@,
        target: None,
        title: outage_title(layer),
        message: outage_message(layer, cur),
        duration_secs: None,
        notify: !layer::implied(layer, cur),
        priority: 4,
        tags: "rotating_light"@,
    }
}

/// The overdue announcement of an outage that no longer is implied.
pub open spec fn still_down_event(layer: Layer, cur: LayerMap<Status>, secs: u64) -> EventModel {
    EventModel {
        layer,
        kind: "still_down"@,
        target: None,
        title: outage_title(layer),
        message: outage_message(layer, cur) + " Still down after "@ + duration_text(secs) + "."@,
        duration_secs: None,
        notify: true,
        priority: 4,
        tags: "rotating_light"@,
    }
}

/// The event that a ladder layer recovered.
pub open spec fn up_event(layer: Layer, notify: bool, secs: u64) -> EventModel {
    EventModel {
        layer,
        kind: "up"@,
        target: None,
        title: layer.title() + " recovered"@,
        message: "Back up after "@ + duration_text(secs) + "."@,
        duration_secs: Some(secs),
        notify,
        priority: 3,
        tags: "white_check_mark"@,
    }
}

/// The event that the internet became degraded.
pub open spec fn degraded_event(layer: Layer, notify: bool, agg: LayerAgg, cfg: Config) -> EventModel {
    EventModel {
        layer,
        kind: "degraded"@,
        target: None,
        title: "Internet degraded"@,
        message: degraded_text(agg, cfg),
        duration_secs: None,
        notify,
        priority: 3,
        tags: "warning"@,
    }
}

/// The event that the internet is back to normal.
pub open spec fn degraded_end_event(layer: Layer, notify: bool, secs: u64) -> EventModel {
    EventModel {
        layer,
        kind: "degraded_end"@,
        target: None,
        title: "Internet back to normal"@,
        message: "Degraded for "@ + duration_text(secs) + "."@,
        duration_secs: Some(secs),
        notify,
        priority: 2,
        tags: "white_check_mark"@,
    }
}

impl LayerState {
    /// A layer at start.
    pub open spec fn fresh(now: u64) -> LayerState {
        LayerState {
            status: Status::Up,
            since: now,
            since_mono: None,
            notified_down: false,
            notified_degraded: false,
            last_degraded_alert: None,
        }
    }

    /// How long the status has lasted: by the monotonic clock where this
    /// process saw it change, by the wall clock otherwise.
    pub open spec fn lasted(self, ts: u64, mono: u64) -> u64 {
        match self.since_mono {
            Some(m) => target::seconds_between(m, mono),
            None => target::elapsed(self.since, ts),
        }
    }

    /// Whether the last announced degradation is long enough ago for another.
    pub open spec fn cooled(self, cfg: Config, mono: u64) -> bool {
        match self.last_degraded_alert {
            Some(t) => (if mono >= t {
                mono - t
            } else {
                0
            }) >= cfg.degraded.cooldown_mins * 60 * 1_000_000_000,
            None => true,
        }
    }

    /// The state of a ladder layer after its status has been judged anew.
    pub open spec fn moved(
        self,
        layer: Layer,
        cfg: Config,
        cur: LayerMap<Status>,
        ts: u64,
        mono: u64,
    ) -> LayerState {
        let new = cur.at(layer)->Some_0;
        let lower_down = layer::implied(layer, cur);
        if new == self.status {
            self
        } else {
            let changed = LayerState { status: new, since: ts, since_mono: Some(mono), ..self };
            match (self.status, new) {
                (_, Status::Down) => LayerState { notified_down: !lower_down, ..changed },
                (Status::Down, _) => LayerState { notified_down: false, ..changed },
                (Status::Up, _) => {
                    let notify = self.cooled(cfg, mono) && !lower_down;
                    LayerState {
                        notified_degraded: notify,
                        last_degraded_alert: if notify {
                            Some(mono)
                        } else {
                            self.last_degraded_alert
                        },
                        ..changed
                    }
                },
                (Status::Degraded, _) => LayerState { notified_degraded: false, ..changed },
            }
        }
    }

    /// The event of a ladder layer whose status has been judged anew.
    pub open spec fn move_event(
        self,
        layer: Layer,
        cfg: Config,
        cur: LayerMap<Status>,
        agg: LayerAgg,
        ts: u64,
        mono: u64,
    ) -> Option<EventModel> {
        let new = cur.at(layer)->Some_0;
        let lower_down = layer::implied(layer, cur);
        if new == self.status {
            None
        } else {
            match (self.status, new) {
                (_, Status::Down) => Some(down_event(layer, cur)),
                (Status::Down, _) => Some(
                    up_event(layer, self.notified_down && !lower_down, self.lasted(ts, mono)),
                ),
                (Status::Up, _) => Some(
                    degraded_event(layer, self.cooled(cfg, mono) && !lower_down, agg, cfg),
                ),
                (Status::Degraded, _) => Some(
                    degraded_end_event(
                        layer,
                        self.notified_degraded && !lower_down,
                        self.lasted(ts, mono),
                    ),
                ),
            }
        }
    }

    /// Whether the layer's outage stands on its own and was never announced.
    pub open spec fn overdue(self, layer: Layer, cur: LayerMap<Status>) -> bool {
        self.status == Status::Down && !self.notified_down && !layer::implied(layer, cur)
    }

    /// The state of the host layer after its status has been judged anew.
    pub open spec fn host_moved(self, new: Status, ts: u64, mono: u64) -> LayerState {
        if new == self.status {
            self
        } else {
            LayerState { status: new, since: ts, since_mono: Some(mono), ..self }
        }
    }

    pub fn dur_secs(&self, ts: u64, mono: u64) -> (r: u64)
        ensures
            r == self.lasted(ts, mono),
    {
        match self.since_mono {
            Some(m) => secs_between(m, mono),
            None => ts.saturating_sub(self.since),
        }
    }

    fn is_cooled(&self, cfg: &Config, mono: u64) -> (r: bool)
        ensures
            r == self.cooled(*cfg, mono),
    {
        match self.last_degraded_alert {
            Some(t) => mono.saturating_sub(t) as u128 >= cfg.degraded.cooldown_mins as u128
                * 60_000_000_000,
            None => true,
        }
    }

    /// Judges a ladder layer anew.
    fn step(
        &mut self,
        layer: Layer,
        cfg: &Config,
        cur: &LayerMap<Status>,
        agg: &LayerAgg,
        ts: u64,
        mono: u64,
    ) -> (r: Option<PendingEvent>)
        requires
            cur.at(layer) is Some,
            cfg.window_fits(),
        ensures
            *final(self) == old(self).moved(layer, *cfg, *cur, ts, mono),
            match r {
                Some(e) => old(self).move_event(layer, *cfg, *cur, *agg, ts, mono) == Some(e@),
                None => old(self).move_event(layer, *cfg, *cur, *agg, ts, mono) is None,
            },
    {
        let new: Status = match cur.get(layer) {
            Some(s) => *s,
            None => Status::Up,
        };
        if new == self.status {
            return None;
        }
        let lower_down: bool = implied_down(layer, cur);
        let event: PendingEvent;
        if new == Status::Down {
            self.notified_down = !lower_down;
            event = PendingEvent {
                layer,
                kind: "down",
                target: None,
                title: down_title(layer),
                message: down_message(layer, cur),
                duration_secs: None,
                notify: !lower_down,
                priority: 4,
                tags: "rotating_light",
            };
        } else if self.status == Status::Down {
            let dur: u64 = self.dur_secs(ts, mono);
            event = PendingEvent {
                layer,
                kind: "up",
                target: None,
                title: layer.label().to_owned().concat(" recovered"),
                message: "Back up after ".to_owned().concat(fmt_duration(dur).as_str()).concat("."),
                duration_secs: Some(dur),
                notify: self.notified_down && !lower_down,
                priority: 3,
                tags: "white_check_mark",
            };
            self.notified_down = false;
        } else if self.status == Status::Up {
            let notify: bool = self.is_cooled(cfg, mono) && !lower_down;
            if notify {
                self.last_degraded_alert = Some(mono);
            }
            self.notified_degraded = notify;
            event = PendingEvent {
                layer,
                kind: "degraded",
                target: None,
                title: "Internet degraded".to_owned(),
                message: degraded_message(agg, cfg),
                duration_secs: None,
                notify,
                priority: 3,
                tags: "warning",
            };
        } else {
            let dur: u64 = self.dur_secs(ts, mono);
            event = PendingEvent {
                layer,
                kind: "degraded_end",
                target: None,
                title: "Internet back to normal".to_owned(),
                message: "Degraded for ".to_owned().concat(fmt_duration(dur).as_str()).concat("."),
                duration_secs: Some(dur),
                notify: self.notified_degraded && !lower_down,
                priority: 2,
                tags: "white_check_mark",
            };
            self.notified_degraded = false;
        }
        self.status = new;
        self.since = ts;
        self.since_mono = Some(mono);
        Some(event)
    }

    /// Announces an overdue outage.
    fn catch_up(
        &mut self,
        layer: Layer,
        cur: &LayerMap<Status>,
        ts: u64,
        mono: u64,
    ) -> (r: Option<PendingEvent>)
        ensures
            match r {
                Some(e) => old(self).overdue(layer, *cur) && *final(self) == (LayerState {
                    notified_down: true,
                    ..*old(self)
                }) && e@ == still_down_event(layer, *cur, old(self).lasted(ts, mono)),
                None => !old(self).overdue(layer, *cur) && *final(self) == *old(self),
            },
    {
        if self.status != Status::Down || self.notified_down || implied_down(layer, cur) {
            return None;
        }
        self.notified_down = true;
        Some(
            PendingEvent {
                layer,
                kind: "still_down",
                target: None,
                title: down_title(layer),
                message: down_message(layer, cur).concat(" Still down after ").concat(
                    fmt_duration(self.dur_secs(ts, mono)).as_str(),
                ).concat("."),
                duration_secs: None,
                notify: true,
                priority: 4,
                tags: "rotating_light",
            },
        )
    }
}

/// Judges one ladder layer anew.
pub(crate) fn step_layer(
    layers: &mut LayerMap<LayerState>,
    layer: Layer,
    cfg: &Config,
    cur: &LayerMap<Status>,
    aggs: &LayerMap<LayerAgg>,
    ts: u64,
    mono: u64,
    events: &mut Vec<PendingEvent>,
)
    requires
        old(layers).at(layer) is Some ==> cur.at(layer) is Some && aggs.at(layer) is Some,
        cfg.window_fits(),
    ensures
        *final(layers) == old(layers).with(
            layer,
            match old(layers).at(layer) {
                Some(ls) => Some(ls.moved(layer, *cfg, *cur, ts, mono)),
                None => None,
            },
        ),
        events_of(final(events)@) == events_of(old(events)@) + listed(
            match old(layers).at(layer) {
                Some(ls) => ls.move_event(layer, *cfg, *cur, aggs.at(layer)->Some_0, ts, mono),
                None => None,
            },
        ),
{
    assert(events_of(events@) =~= events_of(events@) + listed(None));
    let mut ls: LayerState = match layers.get(layer) {
        Some(ls) => *ls,
        None => {
            return ;
        },
    };
    let agg: LayerAgg = match aggs.get(layer) {
        Some(agg) => *agg,
        None => {
            return ;
        },
    };
    let event = ls.step(layer, cfg, cur, &agg, ts, mono);
    layers.insert(layer, ls);
    push_event(events, event);
}

/// Announces an overdue outage of one ladder layer.
pub(crate) fn catch_up_layer(
    layers: &mut LayerMap<LayerState>,
    layer: Layer,
    cur: &LayerMap<Status>,
    ts: u64,
    mono: u64,
    events: &mut Vec<PendingEvent>,
)
    ensures
        *final(layers) == old(layers).with(
            layer,
            match old(layers).at(layer) {
                Some(ls) if ls.overdue(layer, *cur) => Some(
                    LayerState { notified_down: true, ..ls },
                ),
                other => other,
            },
        ),
        events_of(final(events)@) == events_of(old(events)@) + listed(
            match old(layers).at(layer) {
                Some(ls) if ls.overdue(layer, *cur) => Some(
                    still_down_event(layer, *cur, ls.lasted(ts, mono)),
                ),
                _ => None,
            },
        ),
{
    assert(events_of(events@) =~= events_of(events@) + listed(None));
    let mut ls: LayerState = match layers.get(layer) {
        Some(ls) => *ls,
        None => {
            return ;
        },
    };
    let event = ls.catch_up(layer, cur, ts, mono);
    layers.insert(layer, ls);
    push_event(events, event);
}

/// Judges the host layer anew. Its events are those of its targets.
pub(crate) fn step_host_layer(layers: &mut LayerMap<LayerState>, cur: &LayerMap<Status>, ts: u64, mono: u64)
    requires
        old(layers).host is Some ==> cur.host is Some,
    ensures
        *final(layers) == old(layers).with(
            Layer::Host,
            match old(layers).host {
                Some(ls) => Some(ls.host_moved(cur.host->Some_0, ts, mono)),
                None => None,
            },
        ),
{
    if let (Some(ls), Some(new)) = (layers.host, cur.host) {
        if new != ls.status {
            layers.host = Some(
                LayerState { status: new, since: ts, since_mono: Some(mono), ..ls },
            );
        }
    }
}

} // verus!
