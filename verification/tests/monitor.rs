use pi_watcher::binary64::Binary64;
use pi_watcher::config::{
    d_db_path, d_interval, d_retention, d_three, d_timeout, d_true, d_window, default_tiles, Config,
    DegradedConfig, NtfyConfig, Target, TargetKind, WebConfig,
};
use pi_watcher::engine::Engine;
use pi_watcher::layer::{Layer, LayerMap};
use pi_watcher::monitor::{
    cycle_rows, event_msg, load_resume, needs_ping, ping_ident, prune_cutoff, prune_due,
    resume_is_recent, startup_msg,
};
use pi_watcher::probes::{Address, IpAddr, ProbeResult, ProbeSpec, SocketAddr};
use pi_watcher::store::TargetResume;

fn target(name: &str, layer: Layer) -> Target {
    Target {
        name: name.to_string(),
        layer,
        kind: TargetKind::Ping,
        addr: "10.0.0.1".to_string(),
        parsed: Address::Ip(IpAddr::V4(0x0a00_0001)),
        query: None,
        alert: true,
    }
}

fn cfg(targets: Vec<Target>) -> Config {
    Config {
        interval_secs: d_interval(),
        db_path: d_db_path(),
        fail_threshold: d_three(),
        recover_threshold: d_three(),
        window_samples: d_window(),
        probe_timeout_secs: d_timeout(),
        retention_days: d_retention(),
        startup_message: d_true(),
        ntfy: NtfyConfig::default(),
        web: WebConfig::default(),
        degraded: DegradedConfig::default(),
        tiles: default_tiles(),
        targets,
    }
}

const UP: Option<TargetResume> = Some(TargetResume {
    up: true,
    down_since: None,
    notified: false,
    fails: 0,
    oks: 5,
    on_record: None,
});

fn failing(since: u64, fails: u64, on_record: Option<(u64, bool)>) -> Option<TargetResume> {
    Some(TargetResume {
        up: false,
        down_since: Some(since),
        notified: on_record.map_or(false, |o| o.1),
        fails,
        oks: 0,
        on_record,
    })
}

fn answering(oks: u64, on_record: Option<(u64, bool)>) -> Option<TargetResume> {
    Some(TargetResume { up: true, down_since: None, notified: false, fails: 0, oks, on_record })
}

#[test]
fn state_older_than_ten_intervals_is_not_resumed() {
    assert!(!resume_is_recent(None, 1000, 30));
    assert!(resume_is_recent(Some(700), 1000, 30));
    assert!(!resume_is_recent(Some(699), 1000, 30));
    assert!(resume_is_recent(Some(2000), 1000, 30));
    assert!(resume_is_recent(Some(0), u64::MAX, u64::MAX));
}

#[test]
fn resumed_state_holds_what_was_down() {
    let config = cfg(vec![target("router", Layer::Lan), target("nas", Layer::Host)]);
    let down = failing(900, 4, Some((960, true)));
    let mut outages: LayerMap<(u64, bool)> = LayerMap::new();
    // A layer without targets is left out.
    outages.insert(Layer::Internet, (5, true));
    assert!(load_resume(&config, 1000, Some(990), &vec![UP, None], &outages).is_none());

    let r = load_resume(&config, 1000, Some(990), &vec![UP, down], &outages).unwrap();
    assert_eq!(r.targets.len(), 2);
    assert!(r.targets[0].up && !r.targets[1].up);
    assert_eq!(r.targets[1].down_since, Some(900));
    assert!(r.targets[1].notified_down);
    assert!(r.layers.get(Layer::Internet).is_none());

    outages.insert(Layer::Lan, (880, false));
    let r = load_resume(&config, 1000, Some(990), &vec![UP, UP], &outages).unwrap();
    assert_eq!(r.layers.get(Layer::Lan).unwrap().down_since, 880);
    assert!(!r.layers.get(Layer::Lan).unwrap().notified_down);
    assert!(load_resume(&config, 5000, Some(990), &vec![UP, down], &outages).is_none());
}

#[test]
fn a_restart_neither_recounts_nor_forgets_an_outage() {
    let config = cfg(vec![target("cloudflare", Layer::Internet)]);
    let fail = || vec![ProbeResult::fail("timeout".to_string())];
    let ok = || vec![ProbeResult::success(Binary64::from_bits(20.0f64.to_bits()))];
    let mut engine = Engine::new(config.clone(), 1000, None);
    let mut log: Vec<(u64, &'static str, bool)> = Vec::new();
    let second = 1_000_000_000;
    for n in 1..=3 {
        for e in engine.evaluate(1000 + n * 30, n * 30 * second, &fail()) {
            log.push((1000 + n * 30, e.kind, e.notify));
        }
    }
    assert_eq!(log, vec![(1090, "down", true)]);

    // What the log tells is what a new engine starts from.
    let mut outages = LayerMap::new();
    outages.insert(Layer::Internet, (log[0].0, log[0].2));
    let stored = vec![failing(1030, 3, None)];
    let resume = load_resume(&config, 1200, Some(1090), &stored, &outages);
    let mut engine = Engine::new(config, 1200, resume);
    for n in 1..=2 {
        assert!(engine.evaluate(1200 + n * 30, n * 30 * second, &fail()).is_empty());
    }
    for n in 3..=4 {
        assert!(engine.evaluate(1200 + n * 30, n * 30 * second, &ok()).is_empty());
    }
    let events = engine.evaluate(1350, 150 * second, &ok());
    assert_eq!(events.len(), 1);
    assert_eq!((events[0].kind, events[0].notify), ("up", true));
    assert_eq!(events[0].duration_secs, Some(1350 - 1090));
}

fn ok_result() -> ProbeResult {
    ProbeResult::success(Binary64::from_bits(20.0f64.to_bits()))
}

fn fail_result() -> ProbeResult {
    ProbeResult::fail("timeout".to_string())
}

fn kinds_after(
    config: &Config,
    stored: Option<TargetResume>,
    outages: &LayerMap<(u64, bool)>,
    result: ProbeResult,
) -> Vec<(&'static str, bool)> {
    let resume = load_resume(config, 1030, Some(1000), &vec![stored], outages);
    let mut engine = Engine::new(config.clone(), 1030, resume);
    engine.evaluate(1030, 7_000_000_000, &[result]).iter().map(|e| (e.kind, e.notify)).collect()
}

#[test]
fn one_failed_cycle_before_a_restart_is_no_outage() {
    let config = cfg(vec![target("cloudflare", Layer::Internet)]);
    let none = LayerMap::new();
    assert_eq!(kinds_after(&config, failing(1000, 1, None), &none, ok_result()), vec![]);
    assert_eq!(kinds_after(&config, failing(1000, 1, None), &none, fail_result()), vec![]);
    assert_eq!(kinds_after(&config, failing(970, 2, None), &none, ok_result()), vec![]);
    // The third failure in a row is one, before the restart or after it.
    let down = vec![("down", true)];
    assert_eq!(kinds_after(&config, failing(970, 2, None), &none, fail_result()), down);
}

#[test]
fn a_layer_on_record_is_not_back_before_its_targets_are() {
    let config = cfg(vec![target("cloudflare", Layer::Internet)]);
    let mut outages = LayerMap::new();
    outages.insert(Layer::Internet, (910, true));
    assert_eq!(kinds_after(&config, answering(1, None), &outages, fail_result()), vec![]);
    assert_eq!(kinds_after(&config, answering(1, None), &outages, ok_result()), vec![]);
    let up = vec![("up", true)];
    assert_eq!(kinds_after(&config, answering(2, None), &outages, ok_result()), up);
}

#[test]
fn a_host_on_record_is_told_when_it_recovers() {
    let config = cfg(vec![target("nas", Layer::Host)]);
    let none = LayerMap::new();
    let stored = answering(2, Some((910, true)));
    assert_eq!(kinds_after(&config, stored, &none, fail_result()), vec![]);
    let resume = load_resume(&config, 1030, Some(1000), &vec![stored], &none);
    let mut engine = Engine::new(config, 1030, resume);
    let events = engine.evaluate(1030, 7_000_000_000, &[ok_result()]);
    assert_eq!(events.len(), 1);
    assert_eq!((events[0].kind, events[0].notify), ("up", true));
    assert_eq!(events[0].duration_secs, Some(1030 - 910));
}

#[test]
fn a_resumed_outage_began_with_its_record_or_its_failures() {
    let config = cfg(vec![target("nas", Layer::Host)]);
    let since = |stored| {
        let none = LayerMap::new();
        let r = load_resume(&config, 1030, Some(1000), &vec![stored], &none).unwrap();
        r.targets[0].down_since
    };
    assert_eq!(since(failing(940, 3, Some((1000, true)))), Some(940));
    // A success in the midst of the outage does not shorten it.
    assert_eq!(since(failing(1000, 1, Some((700, true)))), Some(700));
    assert_eq!(since(failing(940, 3, None)), Some(940));
    assert_eq!(since(failing(1000, 1, None)), None);
}

#[test]
fn ping_targets_need_a_socket() {
    let ip = IpAddr::V4(1);
    let dns = ProbeSpec::Dns(SocketAddr { ip, port: 53 }, "a".to_string());
    assert!(!needs_ping(&vec![]));
    assert!(!needs_ping(&vec![dns.clone()]));
    assert!(needs_ping(&vec![dns, ProbeSpec::Ping(ip)]));
}

#[test]
fn ping_identifiers_wrap() {
    assert_eq!(ping_ident(5, 3), 8);
    assert_eq!(ping_ident(65535, 1), 0);
    assert_eq!(ping_ident(1, 65536 + 7), 8);
}

#[test]
fn a_cycle_stores_one_row_per_target() {
    let targets = vec![target("a", Layer::Lan), target("b", Layer::Host)];
    let ms = Binary64::from_bits(1.5f64.to_bits());
    let results = vec![ProbeResult::success(ms), ProbeResult::fail("x".to_string())];
    let rows = cycle_rows(&targets, &results);
    assert_eq!(
        rows,
        vec![("a".to_string(), true, Some(ms)), ("b".to_string(), false, None)]
    );
    assert_eq!(cycle_rows(&targets, &vec![]).len(), 0);
}

#[test]
fn only_notified_events_become_messages() {
    let config = cfg(vec![target("router", Layer::Lan), target("nas", Layer::Host)]);
    let mut engine = Engine::new(config, 0, None);
    let fail = || ProbeResult::fail("x".to_string());
    let mut last = Vec::new();
    for n in 1..=3 {
        last = engine.evaluate(n * 30, n * 30_000_000_000, &[fail(), fail()]);
    }
    assert_eq!(last.len(), 2);
    let msg = event_msg(&last[0], "12:34:56").unwrap();
    assert_eq!(msg.title, "LAN DOWN");
    assert_eq!(
        msg.body,
        "12:34:56 - The Pi can't reach the LAN router - local network problem (or the Pi itself)."
    );
    assert_eq!((msg.priority, msg.tags), (4, "rotating_light"));
    assert!(event_msg(&last[1], "12:34:56").is_none());
}

#[test]
fn the_startup_message_can_be_switched_off() {
    let mut config = cfg(vec![target("router", Layer::Lan), target("nas", Layer::Host)]);
    let msg = startup_msg(&config, "08:00:00").unwrap();
    assert_eq!(msg.title, "pi-watcher started");
    assert_eq!(
        msg.body,
        "08:00:00 - watching 2 targets every 30s. Web UI on 0.0.0.0:8080."
    );
    assert_eq!((msg.priority, msg.tags), (2, "eyes"));
    config.startup_message = false;
    assert!(startup_msg(&config, "08:00:00").is_none());
}

#[test]
fn samples_are_pruned_once_a_day() {
    let day = 86400 * 1_000_000_000u64;
    assert!(prune_due(None, 0));
    assert!(!prune_due(Some(5), day + 4));
    assert!(prune_due(Some(5), day + 5));
    assert_eq!(prune_cutoff(1_700_000_000, 90), 1_700_000_000 - 90 * 86400);
    assert_eq!(prune_cutoff(100, 1), 0);
}
