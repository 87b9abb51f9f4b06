//! The configuration, its defaults, and the checks that it must pass.

use crate::binary64::Binary64;
use crate::layer::Layer;
use crate::probes::{Address, IpAddr, ProbeSpec, SocketAddr};
use crate::text::same_text;
use vstd::prelude::*;
use vstd::string::*;

verus! {

#[derive(Clone, Debug)]
pub struct Config {
    pub interval_secs: u64,
    pub db_path: String,
    pub fail_threshold: u32,
    pub recover_threshold: u32,
    pub window_samples: usize,
    pub probe_timeout_secs: u64,
    pub retention_days: u64,
    pub startup_message: bool,
    pub ntfy: NtfyConfig,
    pub web: WebConfig,
    pub degraded: DegradedConfig,
    /// Dashboard tiles row. Omitted = the default internet-uptime set.
    pub tiles: Vec<Tile>,
    pub targets: Vec<Target>,
}

/// One tile on the dashboard. `uptime`/`outages`/`downtime` are computed from
/// history; `target` shows the live state of one target by name.
#[derive(Clone, Debug)]
pub enum Tile {
    Uptime {
        hours: u64,
        label: Option<String>,
        /// Uptime of this one target instead of the internet layer.
        target: Option<String>,
    },
    Outages { hours: u64, label: Option<String> },
    Downtime { hours: u64, label: Option<String> },
    Target { target: String, label: Option<String> },
}

#[derive(Clone, Debug)]
pub struct NtfyConfig {
    pub url: String,
    pub topic: String,
    pub token: Option<String>,
    /// Sent as the ntfy Click header: tapping the notification opens this URL
    /// (e.g. the status page, http://pi.local:8080).
    pub click_url: Option<String>,
}

#[derive(Clone, Debug)]
pub struct WebConfig {
    pub listen: String,
}

/// Degradation detection applies to the internet layer only: sustained packet
/// loss or elevated rolling-median latency while the link is still nominally up.
#[derive(Clone, Copy, Debug)]
pub struct DegradedConfig {
    pub enabled: bool,
    pub loss_pct: Binary64,
    pub latency_ms: Binary64,
    pub cooldown_mins: u64,
}

#[derive(Clone, Copy, PartialEq, Eq, Debug, Structural)]
pub enum TargetKind {
    Ping,
    Dns,
}

#[derive(Clone, Debug)]
pub struct Target {
    pub name: String,
    pub layer: Layer,
    pub kind: TargetKind,
    pub addr: String,
    /// What `addr` reads as.
    pub parsed: Address,
    pub query: Option<String>,
    /// For host-layer targets: send down/up notifications. History is
    /// recorded either way. Ladder layers alert at layer level and ignore this.
    pub alert: bool,
}

pub fn d_day() -> (r: u64)
    ensures
        r == 24,
{
    24
}

pub fn d_week() -> (r: u64)
    ensures
        r == 168,
{
    168
}

pub fn d_interval() -> (r: u64)
    ensures
        r == 30,
{
    30
}

pub fn d_db_path() -> (r: String)
    ensures
        r@ == "watcher.db"@,
{
    "watcher.db".to_owned()
}

pub fn d_three() -> (r: u32)
    ensures
        r == 3,
{
    3
}

pub fn d_window() -> (r: usize)
    ensures
        r == 10,
{
    10
}

pub fn d_timeout() -> (r: u64)
    ensures
        r == 3,
{
    3
}

pub fn d_retention() -> (r: u64)
    ensures
        r == 90,
{
    90
}

pub fn d_true() -> (r: bool)
    ensures
        r,
{
    true
}

pub fn d_ntfy_url() -> (r: String)
    ensures
        r@ == "https://ntfy.sh"@,
{
    "https://ntfy.sh".to_owned()
}

pub fn d_listen() -> (r: String)
    ensures
        r@ == "0.0.0.0:8080"@,
{
    "0.0.0.0:8080".to_owned()
}

/// Twenty percent.
pub fn d_loss() -> (r: Binary64)
    ensures
        r.bits == 0x4034_0000_0000_0000,
{
    Binary64::from_bits(0x4034_0000_0000_0000)
}

/// Two hundred and fifty milliseconds.
pub fn d_lat() -> (r: Binary64)
    ensures
        r.bits == 0x406f_4000_0000_0000,
{
    Binary64::from_bits(0x406f_4000_0000_0000)
}

pub fn d_cooldown() -> (r: u64)
    ensures
        r == 30,
{
    30
}

/// The tiles row of a configuration that names none.
pub fn default_tiles() -> (r: Vec<Tile>)
    ensures
        r@ == seq![
            Tile::Uptime { hours: 24, label: None, target: None },
            Tile::Uptime { hours: 168, label: None, target: None },
            Tile::Uptime { hours: 720, label: None, target: None },
            Tile::Outages { hours: 168, label: None },
            Tile::Downtime { hours: 168, label: None },
        ],
{
    vec![
        Tile::Uptime { hours: 24, label: None, target: None },
        Tile::Uptime { hours: 168, label: None, target: None },
        Tile::Uptime { hours: 720, label: None, target: None },
        Tile::Outages { hours: 168, label: None },
        Tile::Downtime { hours: 168, label: None },
    ]
}

impl Default for NtfyConfig {
    fn default() -> (r: NtfyConfig)
        ensures
            r.url@ == "https://ntfy.sh"@,
            r.topic@ == Seq::<char>::empty(),
            r.token is None,
            r.click_url is None,
    {
        NtfyConfig { url: d_ntfy_url(), topic: String::new(), token: None, click_url: None }
    }
}

impl Default for WebConfig {
    fn default() -> (r: WebConfig)
        ensures
            r.listen@ == "0.0.0.0:8080"@,
    {
        WebConfig { listen: d_listen() }
    }
}

impl Default for DegradedConfig {
    fn default() -> (r: DegradedConfig)
        ensures
            r.enabled,
            r.loss_pct.bits == 0x4034_0000_0000_0000,
            r.latency_ms.bits == 0x406f_4000_0000_0000,
            r.cooldown_mins == 30,
    {
        DegradedConfig {
            enabled: true,
            loss_pct: d_loss(),
            latency_ms: d_lat(),
            cooldown_mins: d_cooldown(),
        }
    }
}

/// Why a configuration is refused.
#[derive(Clone, Debug)]
pub enum ConfigError {
    NoTargets,
    DuplicateTarget { name: String },
    /// A ping target whose address is not an IP address.
    NotAnAddress { name: String, addr: String },
    /// A DNS target whose address is neither an IP address nor one with a port.
    NotAServer { name: String, addr: String },
    Ipv6 { name: String },
    IntervalSecs,
    WindowSamples,
    ProbeTimeoutSecs,
    Thresholds,
    RetentionDays,
    CooldownMins,
    LossPct,
    LatencyMs,
    TileHours,
    UnknownTileTarget { name: String },
}

impl ConfigError {
    /// The error as a sentence.
    pub open spec fn text(self) -> Seq<char> {
        match self {
            ConfigError::NoTargets => "config has no [[targets]]"@,
            ConfigError::DuplicateTarget { name } => "duplicate target name '"@ + name@ + "'"@,
            ConfigError::NotAnAddress { name, addr } => "target '"@ + name@ + "': addr '"@ + addr@
                + "' is not an IP address"@,
            ConfigError::NotAServer { name, addr } => "target '"@ + name@ + "': addr '"@ + addr@
                + "' is not an IP or IP:port"@,
            ConfigError::Ipv6 { name } => "target '"@ + name@
                + "': IPv6 addresses are not supported (probes are IPv4-only)"@,
            ConfigError::IntervalSecs => "interval_secs must be between 5 and 86400"@,
            ConfigError::WindowSamples => "window_samples must be between 3 and 10000"@,
            ConfigError::ProbeTimeoutSecs =>
                "probe_timeout_secs must be >= 1 and < interval_secs"@,
            ConfigError::Thresholds => "fail_threshold and recover_threshold must be >= 1"@,
            ConfigError::RetentionDays => "retention_days must be between 1 and 3650"@,
            ConfigError::CooldownMins =>
                "degraded.cooldown_mins must be <= 525600 (one year)"@,
            ConfigError::LossPct => "degraded.loss_pct must be a positive number"@,
            ConfigError::LatencyMs => "degraded.latency_ms must be a positive number"@,
            ConfigError::TileHours => "tile hours must be between 1 and 87600 (10 years)"@,
            ConfigError::UnknownTileTarget { name } => "tile references unknown target '"@ + name@
                + "'"@,
        }
    }

    /// The error as a sentence.
    pub fn message(&self) -> (r: String)
        ensures
            r@ == self.text(),
    {
        match self {
            ConfigError::NoTargets => "config has no [[targets]]".to_owned(),
            ConfigError::DuplicateTarget { name } => "duplicate target name '".to_owned().concat(
                name.as_str(),
            ).concat("'"),
            ConfigError::NotAnAddress { name, addr } => "target '".to_owned().concat(
                name.as_str(),
            ).concat("': addr '").concat(addr.as_str()).concat("' is not an IP address"),
            ConfigError::NotAServer { name, addr } => "target '".to_owned().concat(
                name.as_str(),
            ).concat("': addr '").concat(addr.as_str()).concat("' is not an IP or IP:port"),
            ConfigError::Ipv6 { name } => "target '".to_owned().concat(name.as_str()).concat(
                "': IPv6 addresses are not supported (probes are IPv4-only)",
            ),
            ConfigError::IntervalSecs => "interval_secs must be between 5 and 86400".to_owned(),
            ConfigError::WindowSamples => "window_samples must be between 3 and 10000".to_owned(),
            ConfigError::ProbeTimeoutSecs =>
                "probe_timeout_secs must be >= 1 and < interval_secs".to_owned(),
            ConfigError::Thresholds =>
                "fail_threshold and recover_threshold must be >= 1".to_owned(),
            ConfigError::RetentionDays => "retention_days must be between 1 and 3650".to_owned(),
            ConfigError::CooldownMins =>
                "degraded.cooldown_mins must be <= 525600 (one year)".to_owned(),
            ConfigError::LossPct => "degraded.loss_pct must be a positive number".to_owned(),
            ConfigError::LatencyMs => "degraded.latency_ms must be a positive number".to_owned(),
            ConfigError::TileHours =>
                "tile hours must be between 1 and 87600 (10 years)".to_owned(),
            ConfigError::UnknownTileTarget { name } =>
                "tile references unknown target '".to_owned().concat(name.as_str()).concat("'"),
        }
    }
}

impl Target {
    /// The server that a DNS target queries: port 53 unless the address names
    /// another. `None` where the address is unreadable.
    pub open spec fn server(self) -> Option<SocketAddr> {
        match self.parsed {
            Address::Socket(sa) => Some(sa),
            Address::Ip(ip) => Some(SocketAddr { ip, port: 53 }),
            Address::Unreadable => None,
        }
    }

    /// The name that a DNS target looks up.
    pub open spec fn query_name(self) -> Seq<char> {
        match self.query {
            Some(q) => q@,
            None => "www.google.com"@,
        }
    }

    /// Why the target cannot be probed, if it cannot.
    pub open spec fn fault(self) -> Option<ConfigError> {
        match (self.kind, self.parsed) {
            (TargetKind::Ping, Address::Ip(IpAddr::V4(_))) => None,
            (TargetKind::Ping, Address::Ip(IpAddr::V6(_))) => Some(
                ConfigError::Ipv6 { name: self.name },
            ),
            (TargetKind::Ping, _) => Some(
                ConfigError::NotAnAddress { name: self.name, addr: self.addr },
            ),
            (TargetKind::Dns, _) => match self.server() {
                None => Some(ConfigError::NotAServer { name: self.name, addr: self.addr }),
                Some(sa) => match sa.ip {
                    IpAddr::V4(_) => None,
                    IpAddr::V6(_) => Some(ConfigError::Ipv6 { name: self.name }),
                },
            },
        }
    }

    /// How to probe the target.
    pub fn probe_spec(&self) -> (r: Result<ProbeSpec, ConfigError>)
        ensures
            match r {
                Err(e) => self.fault() == Some(e),
                Ok(ProbeSpec::Ping(ip)) => self.fault() is None && self.kind == TargetKind::Ping
                    && self.parsed == Address::Ip(ip),
                Ok(ProbeSpec::Dns(server, query)) => self.fault() is None && self.kind
                    == TargetKind::Dns && self.server() == Some(server) && query@
                    == self.query_name(),
            },
    {
        match self.kind {
            TargetKind::Ping => match self.parsed {
                Address::Ip(ip) => match ip {
                    IpAddr::V4(_) => Ok(ProbeSpec::Ping(ip)),
                    IpAddr::V6(_) => Err(ConfigError::Ipv6 { name: self.name.clone() }),
                },
                _ => Err(
                    ConfigError::NotAnAddress { name: self.name.clone(), addr: self.addr.clone() },
                ),
            },
            TargetKind::Dns => {
                let sa: SocketAddr = match self.parsed {
                    Address::Socket(sa) => sa,
                    Address::Ip(ip) => SocketAddr { ip, port: 53 },
                    Address::Unreadable => {
                        return Err(
                            ConfigError::NotAServer {
                                name: self.name.clone(),
                                addr: self.addr.clone(),
                            },
                        );
                    },
                };
                match sa.ip {
                    IpAddr::V4(_) => {
                        let query: String = match &self.query {
                            Some(q) => q.clone(),
                            None => "www.google.com".to_owned(),
                        };
                        Ok(ProbeSpec::Dns(sa, query))
                    },
                    IpAddr::V6(_) => Err(ConfigError::Ipv6 { name: self.name.clone() }),
                }
            },
        }
    }
}

impl Tile {
    /// The window that the tile looks back on; an hour for a live tile.
    pub open spec fn window_hours(self) -> u64 {
        match self {
            Tile::Uptime { hours, .. } => hours,
            Tile::Outages { hours, .. } => hours,
            Tile::Downtime { hours, .. } => hours,
            Tile::Target { .. } => 1,
        }
    }

    /// The target that the tile names.
    pub open spec fn named_target(self) -> Option<String> {
        match self {
            Tile::Uptime { target, .. } => target,
            Tile::Target { target, .. } => Some(target),
            _ => None,
        }
    }

    /// Why the tile is refused beside these targets, if it is.
    pub open spec fn fault(self, targets: Seq<Target>) -> Option<ConfigError> {
        if !(1 <= self.window_hours() <= 87_600) {
            Some(ConfigError::TileHours)
        } else {
            match self.named_target() {
                Some(name) => if has_name(targets, name@) {
                    None
                } else {
                    Some(ConfigError::UnknownTileTarget { name })
                },
                None => None,
            }
        }
    }
}

/// Whether a target of this name exists.
pub open spec fn has_name(targets: Seq<Target>, name: Seq<char>) -> bool {
    exists|i: int| 0 <= i < targets.len() && (#[trigger] targets[i]).name@ == name
}

/// The first fault among the targets from `i` on: a name that an earlier
/// target bears, or an address that cannot be probed.
pub open spec fn targets_fault(targets: Seq<Target>, i: int) -> Option<ConfigError>
    decreases targets.len() - i,
{
    if i < 0 || i >= targets.len() {
        None
    } else if has_name(targets.take(i), targets[i].name@) {
        Some(ConfigError::DuplicateTarget { name: targets[i].name })
    } else if targets[i].fault() is Some {
        targets[i].fault()
    } else {
        targets_fault(targets, i + 1)
    }
}

/// The first fault among the tiles from `i` on.
pub open spec fn tiles_fault(tiles: Seq<Tile>, targets: Seq<Target>, i: int) -> Option<ConfigError>
    decreases tiles.len() - i,
{
    if i < 0 || i >= tiles.len() {
        None
    } else if tiles[i].fault(targets) is Some {
        tiles[i].fault(targets)
    } else {
        tiles_fault(tiles, targets, i + 1)
    }
}

impl Config {
    /// The first number out of range, if any.
    pub open spec fn numbers_fault(self) -> Option<ConfigError> {
        if !(5 <= self.interval_secs <= 86400) {
            Some(ConfigError::IntervalSecs)
        } else if !(3 <= self.window_samples <= 10_000) {
            Some(ConfigError::WindowSamples)
        } else if self.probe_timeout_secs == 0 || self.probe_timeout_secs >= self.interval_secs {
            Some(ConfigError::ProbeTimeoutSecs)
        } else if self.fail_threshold == 0 || self.recover_threshold == 0 {
            Some(ConfigError::Thresholds)
        } else if !(1 <= self.retention_days <= 3650) {
            Some(ConfigError::RetentionDays)
        } else if self.degraded.cooldown_mins > 525_600 {
            Some(ConfigError::CooldownMins)
        } else if !(self.degraded.loss_pct.finite() && self.degraded.loss_pct.steps() > 0) {
            Some(ConfigError::LossPct)
        } else if !(self.degraded.latency_ms.finite() && self.degraded.latency_ms.steps() > 0) {
            Some(ConfigError::LatencyMs)
        } else {
            None
        }
    }

    /// Why the configuration is refused, if it is: the first fault in the
    /// order in which the checks are made.
    pub open spec fn fault(self) -> Option<ConfigError> {
        if self.targets@.len() == 0 {
            Some(ConfigError::NoTargets)
        } else if targets_fault(self.targets@, 0) is Some {
            targets_fault(self.targets@, 0)
        } else if self.numbers_fault() is Some {
            self.numbers_fault()
        } else {
            tiles_fault(self.tiles@, self.targets@, 0)
        }
    }

    /// Checks a configuration as it was read. Upper bounds exist so that later
    /// arithmetic on these values (hours * 3600, days * 86400, ...) can never
    /// overflow a u64.
    pub fn parse(cfg: Config) -> (r: Result<Config, ConfigError>)
        ensures
            match r {
                Ok(c) => c == cfg && cfg.fault() is None && cfg.window_fits(),
                Err(e) => cfg.fault() == Some(e),
            },
    {
        if cfg.targets.len() == 0 {
            return Err(ConfigError::NoTargets);
        }
        if let Some(e) = check_targets(&cfg.targets) {
            return Err(e);
        }
        if let Some(e) = cfg.check_numbers() {
            return Err(e);
        }
        if let Some(e) = check_tiles(&cfg.tiles, &cfg.targets) {
            return Err(e);
        }
        proof {
            accepted_configurations_are_sound(cfg);
        }
        Ok(cfg)
    }

    fn check_numbers(&self) -> (r: Option<ConfigError>)
        ensures
            r == self.numbers_fault(),
    {
        if self.interval_secs < 5 || self.interval_secs > 86400 {
            Some(ConfigError::IntervalSecs)
        } else if self.window_samples < 3 || self.window_samples > 10_000 {
            Some(ConfigError::WindowSamples)
        } else if self.probe_timeout_secs == 0 || self.probe_timeout_secs >= self.interval_secs {
            Some(ConfigError::ProbeTimeoutSecs)
        } else if self.fail_threshold == 0 || self.recover_threshold == 0 {
            Some(ConfigError::Thresholds)
        } else if self.retention_days < 1 || self.retention_days > 3650 {
            Some(ConfigError::RetentionDays)
        } else if self.degraded.cooldown_mins > 525_600 {
            Some(ConfigError::CooldownMins)
        } else if !(self.degraded.loss_pct.is_finite() && self.degraded.loss_pct.is_positive()) {
            Some(ConfigError::LossPct)
        } else if !(self.degraded.latency_ms.is_finite()
            && self.degraded.latency_ms.is_positive()) {
            Some(ConfigError::LatencyMs)
        } else {
            None
        }
    }
}

/// Whether one of the first `n` targets bears the name.
fn name_among(targets: &Vec<Target>, n: usize, name: &String) -> (r: bool)
    requires
        n <= targets@.len(),
    ensures
        r == has_name(targets@.take(n as int), name@),
{
    let mut i: usize = 0;
    while i < n
        invariant
            i <= n <= targets@.len(),
            forall|j: int| 0 <= j < i ==> (#[trigger] targets@[j]).name@ != name@,
        decreases n - i,
    {
        if same_text(&targets[i].name, name) {
            assert(targets@.take(n as int)[i as int].name@ == name@);
            return true;
        }
        i = i + 1;
    }
    false
}

fn check_targets(targets: &Vec<Target>) -> (r: Option<ConfigError>)
    ensures
        r == targets_fault(targets@, 0),
{
    let mut i: usize = 0;
    while i < targets.len()
        invariant
            i <= targets@.len(),
            targets_fault(targets@, 0) == targets_fault(targets@, i as int),
        decreases targets@.len() - i,
    {
        let t = &targets[i];
        if name_among(targets, i, &t.name) {
            return Some(ConfigError::DuplicateTarget { name: t.name.clone() });
        }
        match t.probe_spec() {
            Err(e) => {
                return Some(e);
            },
            Ok(_) => {},
        }
        i = i + 1;
    }
    None
}

fn check_tiles(tiles: &Vec<Tile>, targets: &Vec<Target>) -> (r: Option<ConfigError>)
    ensures
        r == tiles_fault(tiles@, targets@, 0),
{
    let mut i: usize = 0;
    while i < tiles.len()
        invariant
            i <= tiles@.len(),
            tiles_fault(tiles@, targets@, 0) == tiles_fault(tiles@, targets@, i as int),
        decreases tiles@.len() - i,
    {
        if let Some(e) = check_tile(&tiles[i], targets) {
            return Some(e);
        }
        i = i + 1;
    }
    None
}

fn check_tile(tile: &Tile, targets: &Vec<Target>) -> (r: Option<ConfigError>)
    ensures
        r == tile.fault(targets@),
{
    let (hours, target): (u64, Option<&String>) = match tile {
        Tile::Uptime { hours, target, .. } => (*hours, target.as_ref()),
        Tile::Outages { hours, .. } => (*hours, None),
        Tile::Downtime { hours, .. } => (*hours, None),
        Tile::Target { target, .. } => (1, Some(target)),
    };
    if hours < 1 || hours > 87_600 {
        return Some(ConfigError::TileHours);
    }
    if let Some(name) = target {
        assert(targets@.take(targets@.len() as int) =~= targets@);
        if !name_among(targets, targets.len(), name) {
            return Some(ConfigError::UnknownTileTarget { name: name.clone() });
        }
    }
    None
}

/// No two targets bear one name.
pub open spec fn distinct_names(targets: Seq<Target>) -> bool {
    forall|i: int, j: int|
        0 <= i < j < targets.len() ==> (#[trigger] targets[i]).name@ != (
        #[trigger] targets[j]).name@
}

proof fn faultless_targets(targets: Seq<Target>, i: int, j: int)
    requires
        0 <= i <= j < targets.len(),
        targets_fault(targets, i) is None,
    ensures
        targets[j].fault() is None,
        forall|k: int| 0 <= k < j ==> (#[trigger] targets[k]).name@ != targets[j].name@,
    decreases j - i,
{
    if i < j {
        faultless_targets(targets, i + 1, j);
    } else {
        assert forall|k: int| 0 <= k < j implies (#[trigger] targets[k]).name@
            != targets[j].name@ by {
            assert(targets.take(j)[k] == targets[k]);
        }
    }
}

proof fn faultless_tiles(tiles: Seq<Tile>, targets: Seq<Target>, i: int, j: int)
    requires
        0 <= i <= j < tiles.len(),
        tiles_fault(tiles, targets, i) is None,
    ensures
        tiles[j].fault(targets) is None,
    decreases j - i,
{
    if i < j {
        faultless_tiles(tiles, targets, i + 1, j);
    }
}

/// What an accepted configuration can be relied on for: later arithmetic on its
/// values never overflows a u64, its thresholds are of use, its targets have
/// names of their own and IPv4 addresses, and its tiles name targets that exist.
pub proof fn accepted_configurations_are_sound(cfg: Config)
    requires
        cfg.fault() is None,
    ensures
        cfg.targets@.len() > 0,
        distinct_names(cfg.targets@),
        forall|i: int|
            0 <= i < cfg.targets@.len() ==> match (#[trigger] cfg.targets@[i]).kind {
                TargetKind::Ping => cfg.targets@[i].parsed matches Address::Ip(IpAddr::V4(_)),
                TargetKind::Dns => cfg.targets@[i].server() matches Some(
                    SocketAddr { ip: IpAddr::V4(_), .. },
                ),
            },
        cfg.window_fits(),
        0 < cfg.probe_timeout_secs < cfg.interval_secs,
        cfg.fail_threshold >= 1,
        cfg.recover_threshold >= 1,
        cfg.retention_days * 86400 <= u64::MAX,
        cfg.degraded.cooldown_mins * 60 <= u64::MAX,
        forall|i: int|
            0 <= i < cfg.tiles@.len() ==> (#[trigger] cfg.tiles@[i]).window_hours() * 3600
                <= u64::MAX,
        forall|i: int|
            0 <= i < cfg.tiles@.len() && (#[trigger] cfg.tiles@[i]).named_target() is Some
                ==> has_name(cfg.targets@, cfg.tiles@[i].named_target()->Some_0@),
{
    assert(cfg.window_samples * cfg.interval_secs <= 10_000 * 86400) by (nonlinear_arith)
        requires
            cfg.window_samples <= 10_000,
            cfg.interval_secs <= 86400,
    ;
    assert forall|i: int| 0 <= i < cfg.targets@.len() implies (
    #[trigger] cfg.targets@[i]).fault() is None && forall|k: int|
        0 <= k < i ==> (#[trigger] cfg.targets@[k]).name@ != cfg.targets@[i].name@ by {
        faultless_targets(cfg.targets@, 0, i);
    }
    assert forall|i: int| 0 <= i < cfg.tiles@.len() implies (#[trigger] cfg.tiles@[i]).fault(
        cfg.targets@,
    ) is None by {
        faultless_tiles(cfg.tiles@, cfg.targets@, 0, i);
    }
}

} // verus!
