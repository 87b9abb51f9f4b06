use pi_watcher::binary64::Binary64;
use pi_watcher::config::{
    d_db_path, d_interval, d_retention, d_three, d_timeout, d_true, d_window, default_tiles, Config,
    DegradedConfig, NtfyConfig, Target, TargetKind, WebConfig,
};
use pi_watcher::engine::{Engine, ResumeLayer, ResumeState, ResumeTarget};
use pi_watcher::events::{fmt_duration, PendingEvent};
use pi_watcher::layer::{implied_down, Layer, LayerMap, Status};
use pi_watcher::probes::{Address, IpAddr, ProbeResult};

const BASE_TS: u64 = 1_700_000_000;
const INTERVAL: u64 = 30;

fn target(name: &str, layer: Layer, addr: &str, number: u32) -> Target {
    Target {
        name: name.to_string(),
        layer,
        kind: TargetKind::Ping,
        addr: addr.to_string(),
        parsed: Address::Ip(IpAddr::V4(number)),
        query: None,
        alert: d_true(),
    }
}

fn lan() -> Target {
    target("router", Layer::Lan, "192.168.1.1", 0xc0a8_0101)
}

fn gateway() -> Target {
    target("modem", Layer::Gateway, "192.168.0.1", 0xc0a8_0001)
}

fn inet() -> Target {
    target("cloudflare", Layer::Internet, "1.1.1.1", 0x0101_0101)
}

fn nas() -> Target {
    target("nas", Layer::Host, "192.168.1.40", 0xc0a8_0128)
}

fn unchecked(targets: Vec<Target>) -> Config {
    Config {
        interval_secs: d_interval(),
        db_path: d_db_path(),
        fail_threshold: d_three(),
        recover_threshold: d_three(),
        window_samples: d_window(),
        probe_timeout_secs: d_timeout(),
        retention_days: d_retention(),
        startup_message: d_true(),
        ntfy: NtfyConfig::default(),
        web: WebConfig::default(),
        degraded: DegradedConfig::default(),
        tiles: default_tiles(),
        targets,
    }
}

fn cfg(targets: Vec<Target>) -> Config {
    Config::parse(unchecked(targets)).unwrap()
}

fn number(x: f64) -> Binary64 {
    Binary64::from_bits(x.to_bits())
}

fn ok(ms: f64) -> ProbeResult {
    ProbeResult { ok: true, latency_ms: Some(number(ms)), error: None }
}

fn fail() -> ProbeResult {
    ProbeResult::fail("test failure".to_string())
}

/// Drives an Engine cycle by cycle with wall and monotonic clocks that
/// advance in lockstep.
struct Sim {
    engine: Engine,
    ts: u64,
    mono: u64,
}

impl Sim {
    fn new(config: Config) -> Self {
        Self::resumed(config, None)
    }

    fn resumed(config: Config, resume: Option<ResumeState>) -> Self {
        Sim { engine: Engine::new(config, BASE_TS, resume), ts: BASE_TS, mono: 77_000_000_123 }
    }

    fn cycle(&mut self, results: Vec<ProbeResult>) -> Vec<PendingEvent> {
        self.ts += INTERVAL;
        self.mono += INTERVAL * 1_000_000_000;
        self.engine.evaluate(self.ts, self.mono, &results)
    }
}

fn kinds(events: &[PendingEvent]) -> Vec<(&'static str, &'static str, bool)> {
    events.iter().map(|e| (e.layer.as_str(), e.kind, e.notify)).collect()
}

fn resumed_internet(since: u64, notified_down: bool) -> ResumeState {
    let mut layers = LayerMap::new();
    layers.insert(Layer::Internet, ResumeLayer { down_since: since, notified_down });
    ResumeState {
        targets: vec![ResumeTarget {
            up: false,
            down_since: Some(since),
            notified_down,
            fails: 0,
            oks: 0,
        }],
        layers,
    }
}

#[test]
fn down_after_threshold_up_after_recovery_with_duration() {
    let mut sim = Sim::new(cfg(vec![lan()]));
    assert!(sim.cycle(vec![fail()]).is_empty());
    assert!(sim.cycle(vec![fail()]).is_empty());
    let evs = sim.cycle(vec![fail()]);
    assert_eq!(kinds(&evs), vec![("lan", "down", true)]);

    assert!(sim.cycle(vec![ok(5.0)]).is_empty());
    assert!(sim.cycle(vec![ok(5.0)]).is_empty());
    let evs = sim.cycle(vec![ok(5.0)]);
    assert_eq!(kinds(&evs), vec![("lan", "up", true)]);
    // Down at cycle 3, up at cycle 6: 3 intervals.
    assert_eq!(evs[0].duration_secs, Some(3 * INTERVAL));
}

#[test]
fn higher_layer_suppressed_then_catches_up_when_lower_recovers() {
    let mut sim = Sim::new(cfg(vec![lan(), inet()]));
    sim.cycle(vec![fail(), fail()]);
    sim.cycle(vec![fail(), fail()]);
    let evs = sim.cycle(vec![fail(), fail()]);
    // Both flip down; internet's alert is suppressed as implied by LAN.
    assert_eq!(kinds(&evs), vec![("lan", "down", true), ("internet", "down", false)]);

    // LAN recovers while the internet stays down: the internet outage now
    // stands on its own, so the overdue alert fires as still_down.
    sim.cycle(vec![ok(2.0), fail()]);
    sim.cycle(vec![ok(2.0), fail()]);
    let evs = sim.cycle(vec![ok(2.0), fail()]);
    assert_eq!(kinds(&evs), vec![("lan", "up", true), ("internet", "still_down", true)]);

    // No outage double-count: internet recovery reports the full duration.
    sim.cycle(vec![ok(2.0), ok(20.0)]);
    sim.cycle(vec![ok(2.0), ok(20.0)]);
    let evs = sim.cycle(vec![ok(2.0), ok(20.0)]);
    assert_eq!(kinds(&evs), vec![("internet", "up", true)]);
    assert_eq!(evs[0].duration_secs, Some(6 * INTERVAL));
}

#[test]
fn degraded_alerts_respect_cooldown_and_pair_recovery_notification() {
    // window of 5 with a 30% threshold: one failure (25% of 4, 20% of 5)
    // stays quiet, two failures (40%) trip it.
    let mut config = unchecked(vec![inet()]);
    config.window_samples = 5;
    config.degraded.loss_pct = number(30.0);
    let mut sim = Sim::new(Config::parse(config).unwrap());
    for _ in 0..3 {
        assert!(sim.cycle(vec![ok(20.0)]).is_empty());
    }
    sim.cycle(vec![fail()]);
    let evs = sim.cycle(vec![fail()]);
    assert_eq!(kinds(&evs), vec![("internet", "degraded", true)]);

    // Enough clean cycles to flush the failures out of the window.
    let mut end = Vec::new();
    for _ in 0..5 {
        end.extend(sim.cycle(vec![ok(20.0)]));
    }
    assert_eq!(kinds(&end), vec![("internet", "degraded_end", true)]);

    // Degrades again within the 30 min cooldown: recorded, not notified,
    // and the paired "back to normal" is silent too.
    sim.cycle(vec![fail()]);
    let evs = sim.cycle(vec![fail()]);
    assert_eq!(kinds(&evs), vec![("internet", "degraded", false)]);
    let mut end = Vec::new();
    for _ in 0..5 {
        end.extend(sim.cycle(vec![ok(20.0)]));
    }
    assert_eq!(kinds(&end), vec![("internet", "degraded_end", false)]);
}

#[test]
fn no_false_degraded_right_after_outage_recovery() {
    let mut sim = Sim::new(cfg(vec![inet()]));
    sim.cycle(vec![ok(20.0)]);
    for _ in 0..2 {
        sim.cycle(vec![fail()]);
    }
    let evs = sim.cycle(vec![fail()]);
    assert_eq!(kinds(&evs), vec![("internet", "down", true)]);

    sim.cycle(vec![ok(20.0)]);
    sim.cycle(vec![ok(20.0)]);
    let evs = sim.cycle(vec![ok(20.0)]);
    // Only the recovery: the failure-heavy window must not read as loss.
    assert_eq!(kinds(&evs), vec![("internet", "up", true)]);
    let evs = sim.cycle(vec![ok(20.0)]);
    assert!(evs.is_empty(), "unexpected events: {:?}", kinds(&evs));
}

#[test]
fn host_alerts_individually_with_duration() {
    let mut sim = Sim::new(cfg(vec![lan(), nas()]));
    sim.cycle(vec![ok(2.0), fail()]);
    sim.cycle(vec![ok(2.0), fail()]);
    let evs = sim.cycle(vec![ok(2.0), fail()]);
    assert_eq!(kinds(&evs), vec![("host", "down", true)]);
    assert_eq!(evs[0].target.as_deref(), Some("nas"));

    sim.cycle(vec![ok(2.0), ok(9.0)]);
    sim.cycle(vec![ok(2.0), ok(9.0)]);
    let evs = sim.cycle(vec![ok(2.0), ok(9.0)]);
    assert_eq!(kinds(&evs), vec![("host", "up", true)]);
    assert_eq!(evs[0].duration_secs, Some(3 * INTERVAL));
}

#[test]
fn host_suppressed_by_lan_down_then_catches_up() {
    let mut sim = Sim::new(cfg(vec![lan(), nas()]));
    sim.cycle(vec![fail(), fail()]);
    sim.cycle(vec![fail(), fail()]);
    let evs = sim.cycle(vec![fail(), fail()]);
    assert_eq!(kinds(&evs), vec![("lan", "down", true), ("host", "down", false)]);

    sim.cycle(vec![ok(2.0), fail()]);
    sim.cycle(vec![ok(2.0), fail()]);
    let evs = sim.cycle(vec![ok(2.0), fail()]);
    assert_eq!(kinds(&evs), vec![("lan", "up", true), ("host", "still_down", true)]);
}

#[test]
fn silent_host_records_history_but_never_notifies() {
    let mut quiet = nas();
    quiet.alert = false;
    let mut sim = Sim::new(cfg(vec![quiet]));
    sim.cycle(vec![fail()]);
    sim.cycle(vec![fail()]);
    let evs = sim.cycle(vec![fail()]);
    assert_eq!(kinds(&evs), vec![("host", "down", false)]);
    // No still_down catch-up for a silent host.
    assert!(sim.cycle(vec![fail()]).is_empty());
    sim.cycle(vec![ok(1.0)]);
    sim.cycle(vec![ok(1.0)]);
    let evs = sim.cycle(vec![ok(1.0)]);
    assert_eq!(kinds(&evs), vec![("host", "up", false)]);
}

#[test]
fn resume_mid_outage_recovers_without_double_counting() {
    let outage_start = BASE_TS - 600;
    let resume = resumed_internet(outage_start, true);
    let mut sim = Sim::resumed(cfg(vec![inet()]), Some(resume));

    // Still down: no fresh "down" event, the outage is already on record.
    assert!(sim.cycle(vec![fail()]).is_empty());

    // Recovery alert carries the full duration from before the restart.
    sim.cycle(vec![ok(20.0)]);
    sim.cycle(vec![ok(20.0)]);
    let evs = sim.cycle(vec![ok(20.0)]);
    assert_eq!(kinds(&evs), vec![("internet", "up", true)]);
    let dur = evs[0].duration_secs.unwrap();
    assert_eq!(dur, (BASE_TS + 4 * INTERVAL) - outage_start);
}

#[test]
fn resume_unnotified_outage_sends_catchup_alert() {
    let resume = resumed_internet(BASE_TS - 300, false);
    let mut sim = Sim::resumed(cfg(vec![inet()]), Some(resume));
    // The pre-restart down was never notified (e.g. queued and lost):
    // the catch-up pass owes the user an alert.
    let evs = sim.cycle(vec![fail()]);
    assert_eq!(kinds(&evs), vec![("internet", "still_down", true)]);
    assert!(sim.cycle(vec![fail()]).is_empty());
}

#[test]
fn snapshot_reflects_verdict_and_layers() {
    let mut sim = Sim::new(cfg(vec![lan(), inet()]));
    sim.cycle(vec![ok(2.0), ok(25.0)]);
    let snap = sim.engine.snapshot(sim.ts);
    assert_eq!(snap.verdict_status, Status::Up);
    assert!(snap.verdict.starts_with("Internet OK"));
    assert_eq!(snap.layers.len(), 2);

    for _ in 0..3 {
        sim.cycle(vec![ok(2.0), fail()]);
    }
    let snap = sim.engine.snapshot(sim.ts);
    assert_eq!(snap.verdict_status, Status::Down);
    assert!(snap.verdict.contains("UPLINK OUTAGE"), "{}", snap.verdict);
}

#[test]
fn the_uplink_is_blamed_when_the_gateway_answers() {
    let mut sim = Sim::new(cfg(vec![lan(), gateway(), inet()]));
    for _ in 0..2 {
        sim.cycle(vec![ok(1.0), ok(2.0), fail()]);
    }
    let evs = sim.cycle(vec![ok(1.0), ok(2.0), fail()]);
    assert_eq!(kinds(&evs), vec![("internet", "down", true)]);
    assert_eq!(evs[0].title, "Internet DOWN");
    assert_eq!(
        evs[0].message,
        "Internet is unreachable but the WAN gateway still responds - the uplink is down."
    );
    assert_eq!(evs[0].priority, 4);
    assert_eq!(evs[0].tags, "rotating_light");
    assert_eq!(
        sim.engine.snapshot(sim.ts).verdict,
        "UPLINK OUTAGE - gateway reachable, uplink down"
    );
}

#[test]
fn a_dead_gateway_implies_the_internet_outage() {
    let mut sim = Sim::new(cfg(vec![lan(), gateway(), inet()]));
    for _ in 0..2 {
        sim.cycle(vec![ok(1.0), fail(), fail()]);
    }
    let evs = sim.cycle(vec![ok(1.0), fail(), fail()]);
    assert_eq!(kinds(&evs), vec![("gateway", "down", true), ("internet", "down", false)]);
    assert_eq!(
        evs[1].message,
        "Internet is unreachable and the WAN gateway isn't answering either - the gateway may be offline or rebooting."
    );
    assert_eq!(sim.engine.snapshot(sim.ts).verdict, "OUTAGE - WAN gateway unreachable");

    // The gateway recovers alone: the overdue alert names the time.
    for _ in 0..2 {
        sim.cycle(vec![ok(1.0), ok(1.0), fail()]);
    }
    let evs = sim.cycle(vec![ok(1.0), ok(1.0), fail()]);
    assert_eq!(kinds(&evs), vec![("gateway", "up", true), ("internet", "still_down", true)]);
    assert_eq!(
        evs[1].message,
        "Internet is unreachable but the WAN gateway still responds - the uplink is down. Still down after 1m 30s."
    );
    assert_eq!(evs[0].message, "Back up after 1m 30s.");
    assert_eq!(evs[0].title, "WAN gateway recovered");
}

#[test]
fn a_cut_off_pi_does_not_judge_the_uplink() {
    let mut sim = Sim::new(cfg(vec![lan(), inet()]));
    for _ in 0..3 {
        sim.cycle(vec![fail(), fail()]);
    }
    let snap = sim.engine.snapshot(sim.ts);
    assert_eq!(snap.verdict, "Pi is cut off from the LAN - can't judge the uplink");
    assert_eq!(snap.layers[0].status, Status::Down);
    assert_eq!(snap.layers[0].since, sim.ts);
}

#[test]
fn one_bad_anchor_raises_no_alarm() {
    let second = target("google", Layer::Internet, "8.8.8.8", 0x0808_0808);
    let mut sim = Sim::new(cfg(vec![inet(), second]));
    for _ in 0..12 {
        assert!(sim.cycle(vec![ok(20.0), fail()]).is_empty());
    }
    let snap = sim.engine.snapshot(sim.ts);
    assert_eq!(snap.verdict_status, Status::Up);
    assert_eq!(snap.verdict, "Internet OK - 20 ms median, 0% loss");
    assert_eq!(snap.layers[0].targets.len(), 2);
    assert!(snap.layers[0].targets[0].up && !snap.layers[0].targets[1].up);
    assert_eq!(snap.layers[0].targets[1].loss_pct, Some(number(100.0)));
    assert_eq!(snap.layers[0].targets[1].last_ms, None);
    assert_eq!(snap.layers[0].targets[0].last_ms, Some(number(20.0)));
}

#[test]
fn slow_links_are_degraded_with_their_measurements() {
    let mut sim = Sim::new(cfg(vec![inet()]));
    let evs = sim.cycle(vec![ok(250.0)]);
    assert_eq!(kinds(&evs), vec![("internet", "degraded", true)]);
    assert_eq!(
        evs[0].message,
        "0% loss, median 250 ms over the last 5m 00s - thresholds are 20% / 250 ms."
    );
    assert_eq!(
        sim.engine.snapshot(sim.ts).verdict,
        "Internet DEGRADED - 250 ms median, n/a loss"
    );
    // The upper median of two samples is the slower one.
    assert!(sim.cycle(vec![ok(20.0)]).is_empty());
    let evs = sim.cycle(vec![ok(30.0)]);
    assert_eq!(kinds(&evs), vec![("internet", "degraded_end", true)]);
    assert_eq!(evs[0].message, "Degraded for 1m 00s.");
    assert_eq!(evs[0].title, "Internet back to normal");
    assert_eq!(evs[0].priority, 2);
}

#[test]
fn degradation_can_be_switched_off() {
    let mut config = unchecked(vec![inet()]);
    config.degraded.enabled = false;
    let mut sim = Sim::new(Config::parse(config).unwrap());
    assert!(sim.cycle(vec![ok(9000.0)]).is_empty());
    assert_eq!(sim.engine.snapshot(sim.ts).verdict_status, Status::Up);
}

/// Degrades the internet twice, the second time five minutes after the first,
/// less `short` nanoseconds, with a cooldown of five minutes.
fn degraded_again(short: u64) -> Vec<(&'static str, &'static str, bool)> {
    let mut config = unchecked(vec![inet()]);
    config.window_samples = 3;
    config.degraded.cooldown_mins = 5;
    let mut sim = Sim::new(Config::parse(config).unwrap());
    let evs = sim.cycle(vec![ok(300.0)]);
    assert_eq!(kinds(&evs), vec![("internet", "degraded", true)]);
    let mut quiet = Vec::new();
    for _ in 0..8 {
        quiet.extend(sim.cycle(vec![ok(10.0)]));
    }
    assert_eq!(kinds(&quiet), vec![("internet", "degraded_end", true)]);
    // Two slow samples of three make a slow median.
    assert!(sim.cycle(vec![ok(300.0)]).is_empty());
    sim.mono -= short;
    kinds(&sim.cycle(vec![ok(300.0)]))
}

#[test]
fn degradations_are_announced_again_after_the_cooldown() {
    assert_eq!(degraded_again(0), vec![("internet", "degraded", true)]);
}

#[test]
fn a_nanosecond_short_of_the_cooldown_is_too_soon() {
    assert_eq!(degraded_again(1), vec![("internet", "degraded", false)]);
}

#[test]
fn without_internet_targets_there_is_nothing_to_judge() {
    let mut sim = Sim::new(cfg(vec![lan()]));
    assert!(sim.engine.snapshot(sim.ts).layers.is_empty());
    sim.cycle(vec![ok(1.0)]);
    let snap = sim.engine.snapshot(sim.ts);
    assert_eq!(snap.verdict, "Monitoring (no internet-layer targets configured)");
    assert_eq!(snap.verdict_status, Status::Up);
    assert_eq!(snap.updated, sim.ts);
    assert_eq!(snap.interval_secs, 30);
    assert_eq!(snap.layers[0].label, "LAN");
}

#[test]
fn dns_outages_tell_whether_the_internet_is_fine() {
    let resolver = target("pihole", Layer::Dns, "192.168.1.2", 0xc0a8_0102);
    let mut sim = Sim::new(cfg(vec![inet(), resolver.clone()]));
    for _ in 0..2 {
        sim.cycle(vec![ok(9.0), fail()]);
    }
    let evs = sim.cycle(vec![ok(9.0), fail()]);
    assert_eq!(kinds(&evs), vec![("dns", "down", true)]);
    assert_eq!(
        evs[0].message,
        "DNS lookups are failing while the internet looks fine - check your DNS server."
    );

    let mut sim = Sim::new(cfg(vec![inet(), resolver]));
    for _ in 0..2 {
        sim.cycle(vec![fail(), fail()]);
    }
    let evs = sim.cycle(vec![fail(), fail()]);
    assert_eq!(kinds(&evs), vec![("internet", "down", true), ("dns", "down", false)]);
    assert_eq!(evs[0].message, "Internet is unreachable through the uplink.");
    assert_eq!(evs[1].message, "DNS lookups failing (internet is down).");
}

#[test]
fn hosts_do_not_touch_the_verdict() {
    let mut with_nas = Sim::new(cfg(vec![inet(), nas()]));
    for _ in 0..5 {
        with_nas.cycle(vec![ok(20.0), fail()]);
    }
    let snap = with_nas.engine.snapshot(with_nas.ts);
    assert_eq!(snap.verdict_status, Status::Up);
    assert_eq!(snap.layers[1].layer, Layer::Host);
    assert_eq!(snap.layers[1].status, Status::Down);
    assert_eq!(snap.layers[1].loss_pct, None);
    assert_eq!(snap.layers[1].latency_ms, None);
}

#[test]
fn host_events_name_the_host_and_its_address() {
    let mut sim = Sim::new(cfg(vec![lan(), nas()]));
    for _ in 0..2 {
        sim.cycle(vec![fail(), fail()]);
    }
    let evs = sim.cycle(vec![fail(), fail()]);
    assert_eq!(evs[1].title, "nas DOWN");
    assert_eq!(evs[1].message, "nas (192.168.1.40) stopped responding.");
    for _ in 0..2 {
        sim.cycle(vec![ok(1.0), fail()]);
    }
    let evs = sim.cycle(vec![ok(1.0), fail()]);
    assert_eq!(
        evs[1].message,
        "nas (192.168.1.40) is not responding. Still down after 1m 30s."
    );
    for _ in 0..2 {
        sim.cycle(vec![ok(1.0), ok(1.0)]);
    }
    let evs = sim.cycle(vec![ok(1.0), ok(1.0)]);
    assert_eq!(evs[0].title, "nas recovered");
    assert_eq!(evs[0].message, "nas back after 3m 00s.");
}

#[test]
fn host_recovery_is_suppressed_while_the_lan_is_down() {
    let mut sim = Sim::new(cfg(vec![lan(), nas()]));
    for _ in 0..2 {
        assert!(sim.cycle(vec![ok(2.0), fail()]).is_empty());
    }
    let evs = sim.cycle(vec![ok(2.0), fail()]);
    assert_eq!(kinds(&evs), vec![("host", "down", true)]);
    assert_eq!(evs[0].target.as_deref(), Some("nas"));
    for _ in 0..2 {
        assert!(sim.cycle(vec![fail(), ok(9.0)]).is_empty());
    }
    let evs = sim.cycle(vec![fail(), ok(9.0)]);
    // Recorded with its duration, but not announced.
    assert_eq!(kinds(&evs), vec![("lan", "down", true), ("host", "up", false)]);
    assert_eq!(evs[1].duration_secs, Some(90));
}

#[test]
fn back_to_normal_is_suppressed_while_a_lower_layer_is_down() {
    let mut sim = Sim::new(cfg(vec![lan(), inet()]));
    let evs = sim.cycle(vec![fail(), ok(300.0)]);
    assert_eq!(kinds(&evs), vec![("internet", "degraded", true)]);
    assert!(sim.cycle(vec![fail(), ok(10.0)]).is_empty());
    let evs = sim.cycle(vec![fail(), ok(10.0)]);
    assert_eq!(kinds(&evs), vec![("lan", "down", true), ("internet", "degraded_end", false)]);
    assert_eq!(evs[1].duration_secs, Some(60));
}

#[test]
fn resumed_streaks_count_on() {
    let resumed = |up: bool, fails: u32, oks: u32| {
        let t = ResumeTarget { up, down_since: None, notified_down: !up, fails, oks };
        let mut layers = LayerMap::new();
        if !up {
            layers.insert(
                Layer::Lan,
                ResumeLayer { down_since: BASE_TS - 60, notified_down: true },
            );
        }
        Sim::resumed(cfg(vec![lan()]), Some(ResumeState { targets: vec![t], layers }))
    };
    // Two failures before the restart and one after make three in a row.
    assert_eq!(kinds(&resumed(true, 2, 0).cycle(vec![fail()])), vec![("lan", "down", true)]);
    let mut sim = resumed(true, 2, 0);
    assert!(sim.cycle(vec![ok(1.0)]).is_empty());
    assert!(sim.cycle(vec![fail()]).is_empty());
    // So do two successes before and one after.
    assert_eq!(kinds(&resumed(false, 0, 2).cycle(vec![ok(1.0)])), vec![("lan", "up", true)]);
    assert!(resumed(false, 0, 2).cycle(vec![fail()]).is_empty());
}

#[test]
fn interrupted_streaks_start_over() {
    let mut sim = Sim::new(cfg(vec![lan()]));
    for _ in 0..4 {
        assert!(sim.cycle(vec![fail()]).is_empty());
        assert!(sim.cycle(vec![fail()]).is_empty());
        assert!(sim.cycle(vec![ok(1.0)]).is_empty());
    }
    for _ in 0..2 {
        assert!(sim.cycle(vec![fail()]).is_empty());
    }
    assert_eq!(kinds(&sim.cycle(vec![fail()])), vec![("lan", "down", true)]);
    for _ in 0..4 {
        assert!(sim.cycle(vec![ok(1.0)]).is_empty());
        assert!(sim.cycle(vec![ok(1.0)]).is_empty());
        assert!(sim.cycle(vec![fail()]).is_empty());
    }
}

#[test]
fn a_stepped_wall_clock_does_not_distort_durations() {
    let mut sim = Sim::new(cfg(vec![lan()]));
    for _ in 0..3 {
        sim.cycle(vec![fail()]);
    }
    sim.ts -= 1_000_000;
    for _ in 0..2 {
        sim.cycle(vec![ok(1.0)]);
    }
    let evs = sim.cycle(vec![ok(1.0)]);
    assert_eq!(evs[0].duration_secs, Some(90));
}

#[test]
fn resumed_hosts_keep_their_story() {
    let resume = ResumeState {
        targets: vec![ResumeTarget {
            up: false,
            down_since: Some(BASE_TS - 90),
            notified_down: true,
            fails: 0,
            oks: 0,
        }],
        layers: LayerMap::new(),
    };
    let mut sim = Sim::resumed(cfg(vec![nas()]), Some(resume));
    assert!(sim.cycle(vec![fail()]).is_empty());
    for _ in 0..2 {
        sim.cycle(vec![ok(1.0)]);
    }
    let evs = sim.cycle(vec![ok(1.0)]);
    assert_eq!(kinds(&evs), vec![("host", "up", true)]);
    assert_eq!(evs[0].duration_secs, Some(90 + 4 * INTERVAL));
}

#[test]
fn durations_have_two_leading_units() {
    assert_eq!(fmt_duration(0), "0s");
    assert_eq!(fmt_duration(59), "59s");
    assert_eq!(fmt_duration(60), "1m 00s");
    assert_eq!(fmt_duration(3599), "59m 59s");
    assert_eq!(fmt_duration(3600), "1h 00m");
    assert_eq!(fmt_duration(86399), "23h 59m");
    assert_eq!(fmt_duration(86400), "1d 0h");
    assert_eq!(fmt_duration(90 * 86400 + 7261), "90d 2h");
    assert_eq!(fmt_duration(u64::MAX), "213503982334601d 7h");
}

#[test]
fn layers_know_what_they_depend_on() {
    let names: Vec<&str> = Layer::ALL.iter().map(|l| l.as_str()).collect();
    assert_eq!(names, vec!["lan", "gateway", "internet", "dns", "host"]);
    let labels: Vec<&str> = Layer::ALL.iter().map(|l| l.label()).collect();
    assert_eq!(labels, vec!["LAN", "WAN gateway", "Internet", "DNS", "Watched hosts"]);
    assert_eq!(Layer::LADDER.len(), 4);
    let mut cur = LayerMap::new();
    cur.insert(Layer::Internet, Status::Down);
    assert!(implied_down(Layer::Dns, &cur));
    assert!(!implied_down(Layer::Host, &cur));
    cur.insert(Layer::Internet, Status::Degraded);
    assert!(!implied_down(Layer::Dns, &cur));
    cur.insert(Layer::Lan, Status::Down);
    assert!(implied_down(Layer::Host, &cur) && implied_down(Layer::Gateway, &cur));
    assert!(!implied_down(Layer::Lan, &cur));
}
