//! What the dashboard asks for and shows.

use crate::binary64::{ordered_bits, Binary64};
use crate::config::{Target, Tile};
use crate::layer::Layer;
use crate::store::HistoryRow;
use crate::target;
use crate::target::units_ago;
use crate::text;
use crate::text::{push_decimal, same_text};
use vstd::prelude::*;
use vstd::string::*;

verus! {

/// The names of the internet layer's targets before `n`.
pub open spec fn internet_names(targets: Seq<Target>, n: int) -> Seq<String>
    decreases n,
{
    if n <= 0 {
        Seq::empty()
    } else {
        let rest = internet_names(targets, n - 1);
        if targets[n - 1].layer == Layer::Internet {
            rest.push(targets[n - 1].name)
        } else {
            rest
        }
    }
}

/// The names of the internet layer's targets.
pub fn internet_targets(targets: &Vec<Target>) -> (r: Vec<String>)
    ensures
        r@ == internet_names(targets@, targets@.len() as int),
{
    let mut r: Vec<String> = Vec::new();
    let mut i: usize = 0;
    while i < targets.len()
        invariant
            i <= targets@.len(),
            r@ == internet_names(targets@, i as int),
        decreases targets@.len() - i,
    {
        if targets[i].layer == Layer::Internet {
            r.push(targets[i].name.clone());
        }
        i = i + 1;
    }
    r
}

/// A window in whole days where it is some, in hours otherwise.
pub open spec fn window_text(hours: u64) -> Seq<char> {
    if hours >= 24 && hours % 24 == 0 {
        text::decimal((hours / 24) as nat) + " d"@
    } else {
        text::decimal(hours as nat) + " h"@
    }
}

/// A window in whole days where it is some, in hours otherwise.
pub fn window_label(hours: u64) -> (r: String)
    ensures
        r@ == window_text(hours),
{
    let mut s = String::new();
    if hours >= 24 && hours % 24 == 0 {
        push_decimal(&mut s, hours / 24);
        s.append(" d");
    } else {
        push_decimal(&mut s, hours);
        s.append(" h");
    }
    assert(s@ =~= window_text(hours));
    s
}

/// How many events to list: fifty unless asked otherwise, five hundred at most.
pub fn events_limit(asked: Option<u32>) -> (r: u32)
    ensures
        r == match asked {
            Some(n) => if n <= 500 {
                n
            } else {
                500
            },
            None => 50,
        },
{
    match asked {
        Some(n) => if n <= 500 {
            n
        } else {
            500
        },
        None => 50,
    }
}

/// A quarter of an hour.
pub open spec fn shortest_chart() -> Binary64 {
    Binary64 { bits: 0x3fd0_0000_0000_0000 }
}

/// Ninety days in hours.
pub open spec fn longest_chart() -> Binary64 {
    Binary64 { bits: 0x40a0_e000_0000_0000 }
}

/// How many hours a chart shows: a day unless asked otherwise, and from a
/// quarter of an hour to ninety days.
pub open spec fn chart_hours(asked: Option<Binary64>) -> Binary64 {
    match asked {
        None => Binary64 { bits: 0x4038_0000_0000_0000 },
        Some(h) => if h.nan() {
            h
        } else if !h.at_least(shortest_chart()) {
            shortest_chart()
        } else if !longest_chart().at_least(h) {
            longest_chart()
        } else {
            h
        },
    }
}

/// How many seconds a chart shows, and how many fall to each of some 240
/// points. "Not a number" of hours is no time at all.
pub open spec fn chart_span(asked: Option<Binary64>) -> (nat, nat) {
    let hours = chart_hours(asked);
    if hours.nan() {
        (0, 0)
    } else {
        (hours.whole_seconds(), hours.whole_steps())
    }
}

fn history_span(asked: Option<Binary64>) -> (r: (u64, u64))
    ensures
        r.0 == chart_span(asked).0,
        r.1 == chart_span(asked).1,
{
    let shortest = Binary64::from_bits(0x3fd0_0000_0000_0000);
    let longest = Binary64::from_bits(0x40a0_e000_0000_0000);
    let hours: Binary64 = match asked {
        None => Binary64::from_bits(0x4038_0000_0000_0000),
        Some(h) => if h.is_nan() {
            return (0, 0);
        } else if !h.ge(shortest) {
            shortest
        } else if !longest.ge(h) {
            longest
        } else {
            proof {
                ordered_bits(shortest, h);
                ordered_bits(h, longest);
            }
            h
        },
    };
    hours.hours_in_seconds()
}

/// From when on, and in buckets of how many seconds, a chart is drawn: some 240
/// points regardless of range, never finer than the probe interval or half a
/// minute.
pub fn history_window(now: u64, hours: Option<Binary64>, interval_secs: u64) -> (r: (u64, u64))
    ensures
        r.0 == target::ago(now, chart_span(hours).0 as int),
        r.1 >= chart_span(hours).1,
        r.1 >= interval_secs,
        r.1 >= 30,
        r.1 == chart_span(hours).1 || r.1 == interval_secs || r.1 == 30,
{
    let (span_secs, step_secs): (u64, u64) = history_span(hours);
    let mut bucket: u64 = step_secs;
    if bucket < interval_secs {
        bucket = interval_secs;
    }
    if bucket < 30 {
        bucket = 30;
    }
    (now.saturating_sub(span_secs), bucket)
}

/// One point of a chart.
#[derive(Clone, Copy, Debug)]
pub struct Point {
    pub bucket: u64,
    pub avg_ms: Option<Binary64>,
    pub loss_pct: Binary64,
}

/// The chart of one target.
#[derive(Clone, Debug)]
pub struct Series {
    pub target: String,
    pub layer: Layer,
    pub points: Vec<Point>,
}

/// The point of a row.
pub open spec fn point_of(row: HistoryRow) -> Point {
    Point {
        bucket: row.bucket,
        avg_ms: row.avg_ms,
        loss_pct: if row.total > 0 {
            Binary64::percent_of(row.fails as nat, row.total as nat)
        } else {
            Binary64 { bits: 0 }
        },
    }
}

/// The points of a target among the rows before `n`.
pub open spec fn points_of(name: Seq<char>, rows: Seq<HistoryRow>, n: int) -> Seq<Point>
    decreases n,
{
    if n <= 0 {
        Seq::empty()
    } else {
        let rest = points_of(name, rows, n - 1);
        if rows[n - 1].target@ == name {
            rest.push(point_of(rows[n - 1]))
        } else {
            rest
        }
    }
}

fn target_points(name: &String, rows: &Vec<HistoryRow>) -> (r: Vec<Point>)
    ensures
        r@ == points_of(name@, rows@, rows@.len() as int),
{
    let mut r: Vec<Point> = Vec::new();
    let mut i: usize = 0;
    while i < rows.len()
        invariant
            i <= rows@.len(),
            r@ == points_of(name@, rows@, i as int),
        decreases rows@.len() - i,
    {
        let row = &rows[i];
        if same_text(&row.target, name) {
            let loss_pct: Binary64 = if row.total > 0 {
                Binary64::percent(row.fails as u64, row.total as u64)
            } else {
                Binary64::from_bits(0)
            };
            r.push(Point { bucket: row.bucket, avg_ms: row.avg_ms, loss_pct });
        }
        i = i + 1;
    }
    r
}

/// The charts of all targets: each with its own rows, in their order.
pub fn history_series(targets: &Vec<Target>, rows: &Vec<HistoryRow>) -> (r: Vec<Series>)
    ensures
        r@.len() == targets@.len(),
        forall|i: int|
            0 <= i < targets@.len() ==> {
                &&& (#[trigger] r@[i]).target == targets@[i].name
                &&& r@[i].layer == targets@[i].layer
                &&& r@[i].points@ == points_of(targets@[i].name@, rows@, rows@.len() as int)
            },
{
    let mut r: Vec<Series> = Vec::new();
    let mut i: usize = 0;
    while i < targets.len()
        invariant
            i <= targets@.len(),
            r@.len() == i,
            forall|j: int|
                0 <= j < i ==> {
                    &&& (#[trigger] r@[j]).target == targets@[j].name
                    &&& r@[j].layer == targets@[j].layer
                    &&& r@[j].points@ == points_of(targets@[j].name@, rows@, rows@.len() as int)
                },
        decreases targets@.len() - i,
    {
        let t = &targets[i];
        r.push(
            Series {
                target: t.name.clone(),
                layer: t.layer,
                points: target_points(&t.name, rows),
            },
        );
        i = i + 1;
    }
    r
}

/// The share of cycles that a tile shows as uptime, in percent.
pub fn uptime_percent(share: Option<Binary64>) -> (r: Option<Binary64>)
    ensures
        r == match share {
            Some(u) => Some(u.times_hundred()),
            None => None,
        },
{
    match share {
        Some(u) => Some(u.hundredfold()),
        None => None,
    }
}

/// What a tile must be told before it can be shown.
#[derive(Clone, Debug)]
pub enum TileQuery {
    /// The share of cycles since `from` in which one of the targets answered.
    Uptime { from: u64, targets: Vec<String> },
    /// How many outages began since `from`.
    Outages { from: u64 },
    /// How long the outages that ended since `from` lasted.
    Downtime { from: u64 },
    /// Nothing: the page knows the live state of the target.
    Target { target: String },
}

impl Tile {
    /// The kind of the tile.
    pub open spec fn kind_text(self) -> Seq<char> {
        match self {
            Tile::Uptime { .. } => "uptime"@,
            Tile::Outages { .. } => "outages"@,
            Tile::Downtime { .. } => "downtime"@,
            Tile::Target { .. } => "target"@,
        }
    }

    /// The caption of the tile: as configured, or else what it shows and over
    /// which window.
    pub open spec fn caption(self) -> Seq<char> {
        match self {
            Tile::Uptime { label: Some(l), .. } => l@,
            Tile::Outages { label: Some(l), .. } => l@,
            Tile::Downtime { label: Some(l), .. } => l@,
            Tile::Target { label: Some(l), .. } => l@,
            Tile::Uptime { hours, label: None, target: Some(t) } => t@ + " uptime \u{b7} "@
                + window_text(hours),
            Tile::Uptime { hours, label: None, target: None } => "Uptime \u{b7} "@ + window_text(
                hours,
            ),
            Tile::Outages { hours, label: None } => "Outages \u{b7} "@ + window_text(hours),
            Tile::Downtime { hours, label: None } => "Downtime \u{b7} "@ + window_text(hours),
            Tile::Target { target, label: None } => target@,
        }
    }

    /// When the tile's window begins.
    pub open spec fn window_start(self, now: u64) -> u64 {
        target::ago(now, self.window_hours() * 3600)
    }

    pub fn kind(&self) -> (r: &'static str)
        ensures
            r@ == self.kind_text(),
    {
        match self {
            Tile::Uptime { .. } => "uptime",
            Tile::Outages { .. } => "outages",
            Tile::Downtime { .. } => "downtime",
            Tile::Target { .. } => "target",
        }
    }

    /// The caption of the tile.
    pub fn label(&self) -> (r: String)
        ensures
            r@ == self.caption(),
    {
        match self {
            Tile::Uptime { hours, label, target } => match label {
                Some(l) => l.clone(),
                None => match target {
                    Some(t) => t.clone().concat(" uptime \u{b7} ").concat(
                        window_label(*hours).as_str(),
                    ),
                    None => "Uptime \u{b7} ".to_owned().concat(window_label(*hours).as_str()),
                },
            },
            Tile::Outages { hours, label } => match label {
                Some(l) => l.clone(),
                None => "Outages \u{b7} ".to_owned().concat(window_label(*hours).as_str()),
            },
            Tile::Downtime { hours, label } => match label {
                Some(l) => l.clone(),
                None => "Downtime \u{b7} ".to_owned().concat(window_label(*hours).as_str()),
            },
            Tile::Target { target, label } => match label {
                Some(l) => l.clone(),
                None => target.clone(),
            },
        }
    }

    /// What the tile must be told at `now`: an uptime is that of the tile's own
    /// target, or else of the whole internet layer.
    pub fn query(&self, now: u64, targets: &Vec<Target>) -> (r: TileQuery)
        ensures
            match (*self, r) {
                (Tile::Uptime { target, .. }, TileQuery::Uptime { from, targets: names }) => {
                    &&& from == self.window_start(now)
                    &&& names@ == match target {
                        Some(t) => seq![t],
                        None => internet_names(targets@, targets@.len() as int),
                    }
                },
                (Tile::Outages { .. }, TileQuery::Outages { from }) => from == self.window_start(
                    now,
                ),
                (Tile::Downtime { .. }, TileQuery::Downtime { from }) => from == self.window_start(
                    now,
                ),
                (Tile::Target { target, .. }, TileQuery::Target { target: name }) => name == target,
                _ => false,
            },
    {
        match self {
            Tile::Uptime { hours, target, .. } => {
                let names: Vec<String> = match target {
                    Some(t) => vec![t.clone()],
                    None => internet_targets(targets),
                };
                TileQuery::Uptime { from: units_ago(now, *hours, 3600), targets: names }
            },
            Tile::Outages { hours, .. } => TileQuery::Outages {
                from: units_ago(now, *hours, 3600),
            },
            Tile::Downtime { hours, .. } => TileQuery::Downtime {
                from: units_ago(now, *hours, 3600),
            },
            Tile::Target { target, .. } => TileQuery::Target { target: target.clone() },
        }
    }
}

} // verus!
