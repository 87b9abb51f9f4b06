use pi_watcher::binary64::Binary64;
use pi_watcher::config::{
    d_cooldown, d_day, d_db_path, d_interval, d_lat, d_listen, d_loss, d_ntfy_url, d_retention,
    d_three, d_timeout, d_true, d_week, d_window, default_tiles, Config, ConfigError,
    DegradedConfig, NtfyConfig, Target, TargetKind, Tile, WebConfig,
};
use pi_watcher::layer::Layer;
use pi_watcher::probes::{Address, IpAddr, ProbeSpec, SocketAddr};

fn v4(a: u32, b: u32, c: u32, d: u32) -> IpAddr {
    IpAddr::V4((a << 24) | (b << 16) | (c << 8) | d)
}

fn ping(name: &str, layer: Layer, addr: &str, parsed: Address) -> Target {
    Target {
        name: name.to_string(),
        layer,
        kind: TargetKind::Ping,
        addr: addr.to_string(),
        parsed,
        query: None,
        alert: d_true(),
    }
}

fn dns(name: &str, addr: &str, parsed: Address, query: Option<&str>) -> Target {
    Target {
        name: name.to_string(),
        layer: Layer::Dns,
        kind: TargetKind::Dns,
        addr: addr.to_string(),
        parsed,
        query: query.map(|q| q.to_string()),
        alert: d_true(),
    }
}

fn router() -> Target {
    ping("router", Layer::Lan, "192.168.1.1", Address::Ip(v4(192, 168, 1, 1)))
}

/// A configuration that names its targets and nothing else.
fn with_targets(targets: Vec<Target>) -> Config {
    Config {
        interval_secs: d_interval(),
        db_path: d_db_path(),
        fail_threshold: d_three(),
        recover_threshold: d_three(),
        window_samples: d_window(),
        probe_timeout_secs: d_timeout(),
        retention_days: d_retention(),
        startup_message: d_true(),
        ntfy: NtfyConfig::default(),
        web: WebConfig::default(),
        degraded: DegradedConfig::default(),
        tiles: default_tiles(),
        targets,
    }
}

fn minimal() -> Config {
    with_targets(vec![router()])
}

fn refused(cfg: Config) -> String {
    Config::parse(cfg).unwrap_err().message()
}

#[test]
fn minimal_config_gets_defaults() {
    let cfg = Config::parse(minimal()).unwrap();
    assert_eq!(cfg.interval_secs, 30);
    assert_eq!(cfg.fail_threshold, 3);
    assert_eq!(cfg.tiles.len(), 5);
}

#[test]
fn ipv6_targets_rejected() {
    let cf = ping(
        "cf",
        Layer::Internet,
        "2606:4700:4700::1111",
        Address::Ip(IpAddr::V6(0x2606_4700_4700_0000_0000_0000_0000_1111)),
    );
    let err = refused(with_targets(vec![cf]));
    assert!(err.contains("IPv6"), "unexpected error: {err}");
}

#[test]
fn zero_thresholds_rejected() {
    let mut cfg = minimal();
    cfg.fail_threshold = 0;
    let err = refused(cfg);
    assert!(err.contains("fail_threshold"), "unexpected error: {err}");
}

#[test]
fn duplicate_target_names_rejected() {
    let mut other = router();
    other.layer = Layer::Host;
    let err = refused(with_targets(vec![router(), other]));
    assert!(err.contains("duplicate"), "unexpected error: {err}");
}

#[test]
fn tile_with_unknown_target_rejected() {
    let mut cfg = minimal();
    cfg.tiles = vec![Tile::Target { target: "nas".to_string(), label: None }];
    let err = refused(cfg);
    assert!(err.contains("unknown target"), "unexpected error: {err}");
}

#[test]
fn absurd_tile_hours_rejected() {
    let mut cfg = minimal();
    cfg.tiles = vec![Tile::Uptime { hours: 9000000, label: None, target: None }];
    assert!(Config::parse(cfg).is_err());
}

#[test]
fn zero_retention_rejected() {
    let mut cfg = minimal();
    cfg.retention_days = 0;
    assert!(Config::parse(cfg).is_err());
}

#[test]
fn defaults_are_as_documented() {
    assert_eq!(d_db_path(), "watcher.db");
    assert_eq!(d_window(), 10);
    assert_eq!(d_timeout(), 3);
    assert_eq!(d_retention(), 90);
    assert_eq!(d_ntfy_url(), "https://ntfy.sh");
    assert_eq!(d_listen(), "0.0.0.0:8080");
    assert_eq!(d_loss().to_bits(), 20.0f64.to_bits());
    assert_eq!(d_lat().to_bits(), 250.0f64.to_bits());
    assert_eq!(d_cooldown(), 30);
    assert_eq!(d_day(), 24);
    assert_eq!(d_week(), 168);
    let ntfy = NtfyConfig::default();
    assert_eq!(ntfy.url, "https://ntfy.sh");
    assert_eq!(ntfy.topic, "");
    assert!(ntfy.token.is_none() && ntfy.click_url.is_none());
    assert_eq!(WebConfig::default().listen, "0.0.0.0:8080");
    let degraded = DegradedConfig::default();
    assert!(degraded.enabled);
    assert_eq!(degraded.loss_pct, d_loss());
    assert_eq!(degraded.latency_ms, d_lat());
    assert_eq!(degraded.cooldown_mins, 30);
}

#[test]
fn default_tiles_are_the_internet_set() {
    let tiles = default_tiles();
    assert!(matches!(tiles[0], Tile::Uptime { hours: 24, label: None, target: None }));
    assert!(matches!(tiles[1], Tile::Uptime { hours: 168, label: None, target: None }));
    assert!(matches!(tiles[2], Tile::Uptime { hours: 720, label: None, target: None }));
    assert!(matches!(tiles[3], Tile::Outages { hours: 168, label: None }));
    assert!(matches!(tiles[4], Tile::Downtime { hours: 168, label: None }));
}

#[test]
fn every_refusal_says_why() {
    assert_eq!(refused(with_targets(vec![])), "config has no [[targets]]");
    assert_eq!(
        refused(with_targets(vec![router(), router()])),
        "duplicate target name 'router'"
    );
    assert_eq!(
        refused(with_targets(vec![ping("p", Layer::Lan, "pi.local", Address::Unreadable)])),
        "target 'p': addr 'pi.local' is not an IP address"
    );
    let with_port = Address::Socket(SocketAddr { ip: v4(10, 0, 0, 1), port: 80 });
    assert_eq!(
        refused(with_targets(vec![ping("p", Layer::Lan, "10.0.0.1:80", with_port)])),
        "target 'p': addr '10.0.0.1:80' is not an IP address"
    );
    assert_eq!(
        refused(with_targets(vec![dns("d", "pi.hole", Address::Unreadable, None)])),
        "target 'd': addr 'pi.hole' is not an IP or IP:port"
    );
    assert_eq!(
        refused(with_targets(vec![dns("d", "::1", Address::Ip(IpAddr::V6(1)), None)])),
        "target 'd': IPv6 addresses are not supported (probes are IPv4-only)"
    );

    let mut cfg = minimal();
    cfg.interval_secs = 4;
    assert_eq!(refused(cfg), "interval_secs must be between 5 and 86400");
    let mut cfg = minimal();
    cfg.interval_secs = 86401;
    assert_eq!(refused(cfg), "interval_secs must be between 5 and 86400");
    let mut cfg = minimal();
    cfg.window_samples = 2;
    assert_eq!(refused(cfg), "window_samples must be between 3 and 10000");
    let mut cfg = minimal();
    cfg.window_samples = 10_001;
    assert_eq!(refused(cfg), "window_samples must be between 3 and 10000");
    let mut cfg = minimal();
    cfg.probe_timeout_secs = 30;
    assert_eq!(refused(cfg), "probe_timeout_secs must be >= 1 and < interval_secs");
    let mut cfg = minimal();
    cfg.recover_threshold = 0;
    assert_eq!(refused(cfg), "fail_threshold and recover_threshold must be >= 1");
    let mut cfg = minimal();
    cfg.retention_days = 3651;
    assert_eq!(refused(cfg), "retention_days must be between 1 and 3650");
    let mut cfg = minimal();
    cfg.degraded.cooldown_mins = 525_601;
    assert_eq!(refused(cfg), "degraded.cooldown_mins must be <= 525600 (one year)");
    for bad in [0.0, -0.0, -1.0, f64::NAN, f64::INFINITY] {
        let mut cfg = minimal();
        cfg.degraded.loss_pct = Binary64::from_bits(bad.to_bits());
        assert_eq!(refused(cfg), "degraded.loss_pct must be a positive number");
        let mut cfg = minimal();
        cfg.degraded.latency_ms = Binary64::from_bits(bad.to_bits());
        assert_eq!(refused(cfg), "degraded.latency_ms must be a positive number");
    }
    let mut cfg = minimal();
    cfg.tiles = vec![Tile::Outages { hours: 0, label: None }];
    assert_eq!(refused(cfg), "tile hours must be between 1 and 87600 (10 years)");
    let mut cfg = minimal();
    cfg.tiles = vec![Tile::Uptime { hours: 24, label: None, target: Some("nas".to_string()) }];
    assert_eq!(refused(cfg), "tile references unknown target 'nas'");
}

#[test]
fn the_first_fault_is_the_one_reported() {
    let mut cfg = with_targets(vec![router(), router()]);
    cfg.interval_secs = 1;
    cfg.tiles = vec![Tile::Outages { hours: 0, label: None }];
    assert!(matches!(Config::parse(cfg), Err(ConfigError::DuplicateTarget { .. })));
    let mut cfg = minimal();
    cfg.interval_secs = 1;
    cfg.window_samples = 1;
    cfg.tiles = vec![Tile::Outages { hours: 0, label: None }];
    assert!(matches!(Config::parse(cfg), Err(ConfigError::IntervalSecs)));
}

#[test]
fn limits_themselves_are_accepted() {
    let mut cfg = minimal();
    cfg.interval_secs = 86400;
    cfg.window_samples = 10_000;
    cfg.probe_timeout_secs = 86399;
    cfg.fail_threshold = 1;
    cfg.recover_threshold = 1;
    cfg.retention_days = 3650;
    cfg.degraded.cooldown_mins = 525_600;
    cfg.degraded.loss_pct = Binary64::from_bits(f64::MIN_POSITIVE.to_bits());
    cfg.tiles = vec![
        Tile::Downtime { hours: 87_600, label: None },
        Tile::Target { target: "router".to_string(), label: None },
    ];
    assert!(Config::parse(cfg).is_ok());
    let mut cfg = minimal();
    cfg.interval_secs = 5;
    cfg.window_samples = 3;
    cfg.probe_timeout_secs = 1;
    cfg.retention_days = 1;
    cfg.degraded.cooldown_mins = 0;
    cfg.tiles = vec![];
    assert!(Config::parse(cfg).is_ok());
}

#[test]
fn probe_specs_follow_the_address() {
    match router().probe_spec() {
        Ok(ProbeSpec::Ping(ip)) => assert_eq!(ip, v4(192, 168, 1, 1)),
        other => panic!("unexpected: {other:?}"),
    }
    match dns("d", "10.0.0.2", Address::Ip(v4(10, 0, 0, 2)), None).probe_spec() {
        Ok(ProbeSpec::Dns(server, query)) => {
            assert_eq!(server, SocketAddr { ip: v4(10, 0, 0, 2), port: 53 });
            assert_eq!(query, "www.google.com");
        }
        other => panic!("unexpected: {other:?}"),
    }
    let sa = SocketAddr { ip: v4(10, 0, 0, 2), port: 5353 };
    match dns("d", "10.0.0.2:5353", Address::Socket(sa), Some("example.org")).probe_spec() {
        Ok(ProbeSpec::Dns(server, query)) => {
            assert_eq!(server, sa);
            assert_eq!(query, "example.org");
        }
        other => panic!("unexpected: {other:?}"),
    }
}
