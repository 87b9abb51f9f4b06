//! The decisions of the probe/persist/notify loop.

use crate::binary64::Binary64;
use crate::config::{Config, Target};
use crate::engine::{ResumeLayer, ResumeState, ResumeTarget};
use crate::events::PendingEvent;
use crate::layer::{Layer, LayerMap};
use crate::notify::Msg;
use crate::probes::{ProbeResult, ProbeSpec};
use crate::status::{has_layer, layer_present};
use crate::store::TargetResume;
use crate::target;
use crate::target::{secs_between, units_ago};
use crate::text;
use crate::text::push_decimal;
use vstd::prelude::*;
use vstd::string::*;

verus! {

/// Whether the last recorded cycle is recent enough to assume continuity.
pub open spec fn is_recent(latest: Option<u64>, now: u64, interval_secs: u64) -> bool {
    match latest {
        Some(last) => now - last <= interval_secs * 10,
        None => false,
    }
}

/// Whether stored state still holds: the last recorded cycle is no older than
/// ten intervals. Otherwise the world has had time to change while nobody was
/// looking.
pub fn resume_is_recent(latest: Option<u64>, now: u64, interval_secs: u64) -> (r: bool)
    ensures
        r == is_recent(latest, now, interval_secs),
{
    match latest {
        Some(last) => now.saturating_sub(last) as u128 <= interval_secs as u128 * 10,
        None => false,
    }
}

/// The resumed state of one layer of the ladder.
pub open spec fn resumed_layer(
    targets: Seq<Target>,
    stored: LayerMap<(u64, bool)>,
    layer: Layer,
) -> Option<ResumeLayer> {
    if layer != Layer::Host && has_layer(targets, layer) {
        match stored.at(layer) {
            Some((down_since, notified_down)) => Some(
                ResumeLayer { down_since, notified_down },
            ),
            None => None,
        }
    } else {
        None
    }
}

/// A count as far as a streak is counted.
pub open spec fn clipped(n: u64) -> u32 {
    if n <= u32::MAX {
        n as u32
    } else {
        u32::MAX
    }
}

/// Whether an outage that the target is part of is on record: its layer's, or
/// its own if it is a host.
pub open spec fn outage_on_record(
    cfg: Config,
    t: Target,
    stored: TargetResume,
    layers: LayerMap<(u64, bool)>,
) -> bool {
    if t.layer == Layer::Host {
        stored.on_record is Some
    } else {
        resumed_layer(cfg.targets@, layers, t.layer) is Some
    }
}

/// Whether the target had been judged down: it failed as often in a row as the
/// threshold says, or its outage is on record and it has not succeeded often
/// enough since to be back.
pub open spec fn was_judged_down(
    cfg: Config,
    t: Target,
    stored: TargetResume,
    layers: LayerMap<(u64, bool)>,
) -> bool {
    stored.fails >= cfg.fail_threshold || (outage_on_record(cfg, t, stored, layers) && stored.oks
        < cfg.recover_threshold)
}

/// When a target that is down went down: when its failures began or its outage
/// on record did, whichever is earlier.
pub open spec fn down_from(stored: TargetResume) -> Option<u64> {
    match (stored.down_since, stored.on_record) {
        (Some(a), Some((b, _))) => Some(
            if a <= b {
                a
            } else {
                b
            },
        ),
        (None, Some((b, _))) => Some(b),
        (a, None) => a,
    }
}

/// The resumed state of one target.
pub open spec fn resumed_target(
    cfg: Config,
    t: Target,
    stored: Option<TargetResume>,
    layers: LayerMap<(u64, bool)>,
) -> ResumeTarget {
    match stored {
        Some(r) => {
            let down = was_judged_down(cfg, t, r, layers);
            ResumeTarget {
                up: !down,
                down_since: if down {
                    down_from(r)
                } else {
                    None
                },
                notified_down: down && r.on_record is Some && r.on_record->Some_0.1,
                fails: clipped(r.fails),
                oks: clipped(r.oks),
            }
        },
        None => ResumeTarget {
            up: true,
            down_since: None,
            notified_down: false,
            fails: 0,
            oks: 0,
        },
    }
}

/// The resumed state of the targets, one by one.
pub open spec fn resumed_targets(
    cfg: Config,
    stored: Seq<Option<TargetResume>>,
    layers: LayerMap<(u64, bool)>,
) -> Seq<ResumeTarget> {
    Seq::new(stored.len(), |i: int| resumed_target(cfg, cfg.targets@[i], stored[i], layers))
}

/// Whether something was down or failing when the state was stored.
pub open spec fn anything_wrong(
    cfg: Config,
    stored: Seq<Option<TargetResume>>,
    layers: LayerMap<(u64, bool)>,
) -> bool {
    ||| exists|i: int|
        0 <= i < stored.len() && {
            let r = #[trigger] resumed_targets(cfg, stored, layers)[i];
            !r.up || r.fails > 0
        }
    ||| resumed_layer(cfg.targets@, layers, Layer::Lan) is Some
    ||| resumed_layer(cfg.targets@, layers, Layer::Gateway) is Some
    ||| resumed_layer(cfg.targets@, layers, Layer::Internet) is Some
    ||| resumed_layer(cfg.targets@, layers, Layer::Dns) is Some
}

/// Whether `resume` is the state to resume from: what is stored, if that is
/// recent and something was down or failing; nothing otherwise, the same as a
/// fresh start.
pub open spec fn resumes(
    cfg: Config,
    now: u64,
    latest: Option<u64>,
    stored: Seq<Option<TargetResume>>,
    layers: LayerMap<(u64, bool)>,
    resume: Option<ResumeState>,
) -> bool {
    let wanted = is_recent(latest, now, cfg.interval_secs) && anything_wrong(cfg, stored, layers);
    match resume {
        Some(s) => {
            &&& wanted
            &&& s.targets@ == resumed_targets(cfg, stored, layers)
            &&& forall|l: Layer|
                #[trigger] s.layers.at(l) == resumed_layer(cfg.targets@, layers, l)
        },
        None => !wanted,
    }
}

fn resume_layer(targets: &Vec<Target>, stored: &LayerMap<(u64, bool)>, layer: Layer) -> (r: Option<
    ResumeLayer,
>)
    requires
        layer != Layer::Host,
    ensures
        r == resumed_layer(targets@, *stored, layer),
{
    if !layer_present(targets, layer) {
        return None;
    }
    match stored.get(layer) {
        Some((down_since, notified_down)) => Some(
            ResumeLayer { down_since: *down_since, notified_down: *notified_down },
        ),
        None => None,
    }
}

fn clip(n: u64) -> (r: u32)
    ensures
        r == clipped(n),
{
    if n <= 0xffff_ffff {
        n as u32
    } else {
        0xffff_ffff
    }
}

fn resume_target(
    cfg: &Config,
    t: &Target,
    stored: &Option<TargetResume>,
    layers: &LayerMap<(u64, bool)>,
) -> (r: ResumeTarget)
    ensures
        r == resumed_target(*cfg, *t, *stored, *layers),
{
    let Some(s) = stored else {
        return ResumeTarget {
            up: true,
            down_since: None,
            notified_down: false,
            fails: 0,
            oks: 0,
        };
    };
    let on_record: bool = if t.layer == Layer::Host {
        s.on_record.is_some()
    } else {
        resume_layer(&cfg.targets, layers, t.layer).is_some()
    };
    let down: bool = s.fails >= cfg.fail_threshold as u64 || (on_record && s.oks
        < cfg.recover_threshold as u64);
    let down_since: Option<u64> = match (s.down_since, s.on_record) {
        (Some(a), Some((b, _))) => if a <= b {
            Some(a)
        } else {
            Some(b)
        },
        (None, Some((b, _))) => Some(b),
        (a, None) => a,
    };
    let notified: bool = match s.on_record {
        Some((_, notified)) => notified,
        None => false,
    };
    ResumeTarget {
        up: !down,
        down_since: if down {
            down_since
        } else {
            None
        },
        notified_down: down && notified,
        fails: clip(s.fails),
        oks: clip(s.oks),
    }
}

/// Rebuilds target and layer state from what is stored (`stored` is indexed
/// like `cfg.targets`), so a restart mid-outage doesn't double-count the outage
/// or lose its duration, and a few failures before it are neither forgotten nor
/// taken for an outage. `None` if the last recorded cycle is missing or too old,
/// or if nothing was down or failing: the same as a fresh start.
pub fn load_resume(
    cfg: &Config,
    now: u64,
    latest: Option<u64>,
    stored: &Vec<Option<TargetResume>>,
    layers: &LayerMap<(u64, bool)>,
) -> (r: Option<ResumeState>)
    requires
        stored@.len() <= cfg.targets@.len(),
    ensures
        resumes(*cfg, now, latest, stored@, *layers, r),
{
    if !resume_is_recent(latest, now, cfg.interval_secs) {
        return None;
    }
    let ghost wanted = resumed_targets(*cfg, stored@, *layers);
    let mut targets: Vec<ResumeTarget> = Vec::new();
    let mut some_wrong: bool = false;
    let mut i: usize = 0;
    while i < stored.len()
        invariant
            i <= stored@.len() <= cfg.targets@.len(),
            wanted == resumed_targets(*cfg, stored@, *layers),
            targets@.len() == i,
            forall|j: int| 0 <= j < i ==> #[trigger] targets@[j] == wanted[j],
            some_wrong == exists|j: int|
                0 <= j < i && {
                    let r = #[trigger] wanted[j];
                    !r.up || r.fails > 0
                },
        decreases stored@.len() - i,
    {
        let rt: ResumeTarget = resume_target(cfg, &cfg.targets[i], &stored[i], layers);
        assert(rt == wanted[i as int]);
        if !rt.up || rt.fails > 0 {
            some_wrong = true;
        }
        targets.push(rt);
        i = i + 1;
    }
    assert(targets@ =~= wanted);
    let resumed: LayerMap<ResumeLayer> = LayerMap {
        lan: resume_layer(&cfg.targets, layers, Layer::Lan),
        gateway: resume_layer(&cfg.targets, layers, Layer::Gateway),
        internet: resume_layer(&cfg.targets, layers, Layer::Internet),
        dns: resume_layer(&cfg.targets, layers, Layer::Dns),
        host: None,
    };
    if !some_wrong && resumed.lan.is_none() && resumed.gateway.is_none()
        && resumed.internet.is_none() && resumed.dns.is_none() {
        return None;
    }
    Some(ResumeState { targets, layers: resumed })
}

/// Whether some target needs to be pinged.
pub fn needs_ping(specs: &Vec<ProbeSpec>) -> (r: bool)
    ensures
        r == exists|i: int| 0 <= i < specs@.len() && (#[trigger] specs@[i]) is Ping,
{
    let mut i: usize = 0;
    while i < specs.len()
        invariant
            i <= specs@.len(),
            forall|j: int| 0 <= j < i ==> (#[trigger] specs@[j]) !is Ping,
        decreases specs@.len() - i,
    {
        if let ProbeSpec::Ping(_) = &specs[i] {
            return true;
        }
        i = i + 1;
    }
    false
}

/// The identifier of a target's pings: its index counted on from a base, in
/// sixteen bits.
pub fn ping_ident(base: u16, index: usize) -> (r: u16)
    ensures
        r == (base + index) % 65536,
{
    ((base as u64 + (index % 65536) as u64) % 65536) as u16
}

/// One cycle's samples: the name of each target with what its probe found.
pub fn cycle_rows(targets: &Vec<Target>, results: &Vec<ProbeResult>) -> (r: Vec<
    (String, bool, Option<Binary64>),
>)
    ensures
        r@.len() == (if targets@.len() <= results@.len() {
            targets@.len()
        } else {
            results@.len()
        }),
        forall|i: int|
            0 <= i < r@.len() ==> #[trigger] r@[i] == (
                targets@[i].name,
                results@[i].ok,
                results@[i].latency_ms,
            ),
{
    let mut r: Vec<(String, bool, Option<Binary64>)> = Vec::new();
    let mut i: usize = 0;
    while i < targets.len() && i < results.len()
        invariant
            i <= targets@.len(),
            i <= results@.len(),
            r@.len() == i,
            forall|j: int|
                0 <= j < i ==> #[trigger] r@[j] == (
                    targets@[j].name,
                    results@[j].ok,
                    results@[j].latency_ms,
                ),
        decreases targets@.len() - i,
    {
        r.push((targets[i].name.clone(), results[i].ok, results[i].latency_ms));
        i = i + 1;
    }
    r
}

/// The notification of an event at a time of day; `None` if the event is only
/// to be recorded.
pub fn event_msg(ev: &PendingEvent, hms: &str) -> (r: Option<Msg>)
    ensures
        match r {
            Some(m) => ev.notify && m.title@ == ev.title@ && m.body@ == hms@ + " - "@ + ev.message@
                && m.priority == ev.priority && m.tags@ == ev.tags@,
            None => !ev.notify,
        },
{
    if !ev.notify {
        return None;
    }
    Some(
        Msg {
            title: ev.title.clone(),
            body: hms.to_owned().concat(" - ").concat(ev.message.as_str()),
            priority: ev.priority,
            tags: ev.tags,
        },
    )
}

/// The notification that the watcher has started; `None` if it is switched off.
pub fn startup_msg(cfg: &Config, hms: &str) -> (r: Option<Msg>)
    ensures
        match r {
            Some(m) => cfg.startup_message && m.title@ == "pi-watcher started"@ && m.body@ == hms@
                + " - watching "@ + text::decimal(cfg.targets@.len()) + " targets every "@
                + text::decimal(cfg.interval_secs as nat) + "s. Web UI on "@ + cfg.web.listen@
                + "."@ && m.priority == 2 && m.tags@ == "eyes"@,
            None => !cfg.startup_message,
        },
{
    if !cfg.startup_message {
        return None;
    }
    let mut body = hms.to_owned();
    body.append(" - watching ");
    push_decimal(&mut body, cfg.targets.len() as u64);
    body.append(" targets every ");
    push_decimal(&mut body, cfg.interval_secs);
    body.append("s. Web UI on ");
    body.append(cfg.web.listen.as_str());
    body.append(".");
    Some(Msg { title: "pi-watcher started".to_owned(), body, priority: 2, tags: "eyes" })
}

/// Whether old samples are to be pruned: at first, and then once a day.
pub fn prune_due(last: Option<u64>, mono: u64) -> (r: bool)
    ensures
        r == match last {
            Some(t) => target::seconds_between(t, mono) >= 86400,
            None => true,
        },
{
    match last {
        Some(t) => secs_between(t, mono) >= 86400,
        None => true,
    }
}

/// The time before which samples are pruned.
pub fn prune_cutoff(ts: u64, retention_days: u64) -> (r: u64)
    ensures
        r == target::ago(ts, retention_days * 86400),
{
    units_ago(ts, retention_days, 86400)
}

} // verus!
