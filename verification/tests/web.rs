use pi_watcher::binary64::Binary64;
use pi_watcher::config::{Target, TargetKind, Tile};
use pi_watcher::layer::Layer;
use pi_watcher::probes::{Address, IpAddr};
use pi_watcher::store::HistoryRow;
use pi_watcher::web::{
    events_limit, history_series, history_window, internet_targets, uptime_percent, window_label,
    TileQuery,
};

fn target(name: &str, layer: Layer) -> Target {
    Target {
        name: name.to_string(),
        layer,
        kind: TargetKind::Ping,
        addr: "10.0.0.1".to_string(),
        parsed: Address::Ip(IpAddr::V4(0x0a00_0001)),
        query: None,
        alert: true,
    }
}

fn targets() -> Vec<Target> {
    vec![
        target("router", Layer::Lan),
        target("cf", Layer::Internet),
        target("nas", Layer::Host),
        target("google", Layer::Internet),
    ]
}

fn row(target: &str, bucket: u64, avg: Option<f64>, total: u32, fails: u32) -> HistoryRow {
    HistoryRow {
        target: target.to_string(),
        bucket,
        avg_ms: avg.map(|a| Binary64::from_bits(a.to_bits())),
        total,
        fails,
    }
}

#[test]
fn windows_are_labelled_in_days_or_hours() {
    assert_eq!(window_label(1), "1 h");
    assert_eq!(window_label(23), "23 h");
    assert_eq!(window_label(24), "1 d");
    assert_eq!(window_label(36), "36 h");
    assert_eq!(window_label(720), "30 d");
    assert_eq!(window_label(0), "0 h");
}

#[test]
fn internet_targets_are_picked_in_order() {
    assert_eq!(internet_targets(&targets()), vec!["cf".to_string(), "google".to_string()]);
}

#[test]
fn event_lists_are_capped() {
    assert_eq!(events_limit(None), 50);
    assert_eq!(events_limit(Some(0)), 0);
    assert_eq!(events_limit(Some(500)), 500);
    assert_eq!(events_limit(Some(501)), 500);
}

/// The window by hardware arithmetic.
fn expected_window(now: u64, asked: Option<f64>, interval_secs: u64) -> (u64, u64) {
    let hours = asked.unwrap_or(24.0).clamp(0.25, 24.0 * 90.0);
    let from = now.saturating_sub((hours * 3600.0) as u64);
    let bucket = ((hours * 3600.0 / 240.0) as u64).max(interval_secs).max(30);
    (from, bucket)
}

fn window(now: u64, asked: Option<f64>, interval_secs: u64) -> (u64, u64) {
    let hours = asked.map(|h| Binary64::from_bits(h.to_bits()));
    history_window(now, hours, interval_secs)
}

#[test]
fn buckets_are_never_finer_than_the_interval() {
    assert_eq!(window(1_000_000, None, 30), (913_600, 360));
    assert_eq!(window(1_000_000, Some(0.25), 60), (999_100, 60));
    assert_eq!(window(1_000_000, Some(0.25), 5), (999_100, 30));
    assert_eq!(window(10, Some(0.1), 5), (0, 30));
    assert_eq!(window(10_000_000, Some(1e9), 5), (10_000_000 - 7_776_000, 32_400));
    assert_eq!(window(10_000_000, Some(-3.0), 5), (10_000_000 - 900, 30));
    assert_eq!(window(10_000_000, Some(f64::NAN), 5), (10_000_000, 30));
    assert_eq!(window(10_000_000, Some(f64::INFINITY), 5), (2_224_000, 32_400));
}

#[test]
fn windows_are_computed_like_the_hardware_does() {
    let now = 1_700_000_000;
    let mut x: u64 = 88172645463325252;
    for _ in 0..4000 {
        x ^= x << 13;
        x ^= x >> 7;
        x ^= x << 17;
        // From well below a quarter of an hour to well over ninety days.
        let asked = f64::from_bits(0x3fb0_0000_0000_0000 + x % 0x0120_0000_0000_0000);
        assert_eq!(window(now, Some(asked), 5), expected_window(now, Some(asked), 5), "{asked}");
    }
    for n in 0..3000 {
        let asked = n as f64 / 7.0;
        assert_eq!(window(now, Some(asked), 5), expected_window(now, Some(asked), 5), "{asked}");
        let asked = n as f64 * 240.0 / 3600.0;
        assert_eq!(window(now, Some(asked), 5), expected_window(now, Some(asked), 5), "{asked}");
    }
    for asked in [0.0, -0.0, 0.25, 2160.0, 2159.9999999999995, 0.25000000000000006] {
        assert_eq!(window(now, Some(asked), 5), expected_window(now, Some(asked), 5), "{asked}");
    }
}

#[test]
fn charts_hold_their_own_points() {
    let rows = vec![
        row("cf", 60, Some(12.0), 4, 1),
        row("nas", 60, None, 2, 2),
        row("cf", 120, None, 0, 0),
        row("gone", 120, None, 1, 0),
    ];
    let series = history_series(&targets(), &rows);
    assert_eq!(series.len(), 4);
    assert_eq!((series[1].target.as_str(), series[1].layer), ("cf", Layer::Internet));
    let points: Vec<(u64, Option<u64>, u64)> = series[1]
        .points
        .iter()
        .map(|p| (p.bucket, p.avg_ms.map(|a| a.to_bits()), p.loss_pct.to_bits()))
        .collect();
    assert_eq!(
        points,
        vec![
            (60, Some(12.0f64.to_bits()), 25.0f64.to_bits()),
            (120, None, 0.0f64.to_bits()),
        ]
    );
    assert_eq!(series[2].points[0].loss_pct.to_bits(), 100.0f64.to_bits());
    assert!(series[0].points.is_empty() && series[3].points.is_empty());
}

#[test]
fn uptime_is_shown_in_percent() {
    let share = Binary64::from_bits(0.25f64.to_bits());
    assert_eq!(uptime_percent(Some(share)).unwrap().to_bits(), 25.0f64.to_bits());
    assert_eq!(uptime_percent(None), None);
}

#[test]
fn tiles_ask_for_what_they_show() {
    let now = 1_000_000;
    let day = Tile::Uptime { hours: 24, label: None, target: None };
    assert_eq!((day.kind(), day.label().as_str()), ("uptime", "Uptime \u{b7} 1 d"));
    match day.query(now, &targets()) {
        TileQuery::Uptime { from, targets } => {
            assert_eq!(from, now - 86400);
            assert_eq!(targets, vec!["cf".to_string(), "google".to_string()]);
        }
        other => panic!("unexpected: {other:?}"),
    }
    let nas = Tile::Uptime { hours: 1, label: None, target: Some("nas".to_string()) };
    assert_eq!(nas.label(), "nas uptime \u{b7} 1 h");
    match nas.query(now, &targets()) {
        TileQuery::Uptime { targets, .. } => assert_eq!(targets, vec!["nas".to_string()]),
        other => panic!("unexpected: {other:?}"),
    }
    let outages = Tile::Outages { hours: 168, label: None };
    assert_eq!((outages.kind(), outages.label().as_str()), ("outages", "Outages \u{b7} 7 d"));
    assert!(matches!(outages.query(now, &targets()), TileQuery::Outages { from: 395_200 }));
    let downtime = Tile::Downtime { hours: 87_600, label: Some("Lost".to_string()) };
    assert_eq!((downtime.kind(), downtime.label().as_str()), ("downtime", "Lost"));
    assert!(matches!(downtime.query(now, &targets()), TileQuery::Downtime { from: 0 }));
    let live = Tile::Target { target: "nas".to_string(), label: None };
    assert_eq!((live.kind(), live.label().as_str()), ("target", "nas"));
    match live.query(now, &targets()) {
        TileQuery::Target { target } => assert_eq!(target, "nas"),
        other => panic!("unexpected: {other:?}"),
    }
    assert_eq!(Tile::Outages { hours: 1, label: Some("x".to_string()) }.label(), "x");
    assert_eq!(
        Tile::Downtime { hours: 1, label: None }.label(),
        "Downtime \u{b7} 1 h"
    );
    assert_eq!(
        Tile::Target { target: "nas".to_string(), label: Some("NAS".to_string()) }.label(),
        "NAS"
    );
}
