//! What is made of what comes in: replies, configurations, arguments and stored
//! state; and what goes out: queries and notifications.

use crate::cli::path_from;
use crate::config::{
    accepted_configurations_are_sound, has_name, targets_fault, tiles_fault, Config, ConfigError,
    NtfyConfig, Target, TargetKind, Tile,
};
use crate::engine::{EngineModel, ResumeState};
use crate::events::kinds_are_distinct;
use crate::laws_numbers::{
    all_digits, numbers_read_back, read_number, trimming_takes_off_the_end_of_texts,
};
use crate::layer::{Layer, LayerMap, Status};
use crate::monitor::{resumed_layer, resumed_target, resumed_targets, resumes};
use crate::notify::{post_headers, topic_url, Action, Event, Msg, OutboxModel};
use crate::probes::{
    dotted, judgement, labels, labels_fit, labels_rejoin, meaning, query_labels, query_message,
    wire_labels, Address, Heard, IpAddr, ReplyModel, SocketAddr,
};
use crate::status::has_layer;
use crate::store::{stored_host_outage, stored_outage, stored_target, EventMarkModel, TargetResume};
use crate::text::{decimal, trimmed_end};
use vstd::prelude::*;

verus! {

/// What a datagram means, by its bytes. It answers the query if it comes from
/// the server, holds a whole header, bears the query's id and has the bit set
/// that tells a response. An answer without an error code and with a count of
/// answers above zero is a success; one with a count of zero has no answers; an
/// error code is told as a number.
pub proof fn replies_are_judged_by_their_bytes(
    reply: Seq<u8>,
    from: IpAddr,
    server: IpAddr,
    id: u16,
)
    ensures
        ({
            let r = judgement(reply, from, server, id);
            let answers = from == server && reply.len() >= 12 && reply[0] * 256 + reply[1] == id
                && reply[2] / 128 == 1;
            let rcode = reply[3] % 16;
            let count = reply[6] * 256 + reply[7];
            &&& r is Stray <==> !answers
            &&& r is Answered <==> answers && rcode == 0 && count > 0
            &&& r == ReplyModel::Failed("no answers"@) <==> answers && rcode == 0 && count == 0
            &&& answers && rcode > 0 ==> exists|digits: Seq<char>|
                #[trigger] all_digits(digits) && read_number(digits) == rcode && r
                    == ReplyModel::Failed("dns rcode "@ + digits)
        }),
{
    let rcode = reply[3] % 16;
    numbers_read_back(rcode as nat);
    assert(all_digits(decimal(rcode as nat)));
    reveal_strlit("no answers");
    reveal_strlit("dns rcode ");
    assert("no answers"@[0] == 'n');
    assert(("dns rcode "@ + decimal(rcode as nat))[0] == 'd');
}

/// A query that is over by its deadline has timed out, and one that is over by a
/// broken socket tells how it broke.
pub proof fn other_ends_are_told(heard: Heard, server: IpAddr, id: u16)
    ensures
        heard is Deadline ==> meaning(heard, server, id) == ReplyModel::Failed("timeout"@),
        heard is Broken ==> meaning(heard, server, id) == ReplyModel::Failed(
            "recv: "@ + heard->Broken_0@,
        ),
        heard is Datagram ==> meaning(heard, server, id) == judgement(
            heard->bytes@,
            heard->from,
            server,
            id,
        ),
{
}

proof fn wire_length(ls: Seq<Seq<u8>>)
    requires
        ls.len() > 0,
    ensures
        wire_labels(ls).len() == dotted(ls).len() + 1,
    decreases ls.len(),
{
    reveal_with_fuel(wire_labels, 2);
    if ls.len() > 1 {
        wire_length(ls.drop_last());
    } else {
        assert(ls.drop_last() =~= Seq::<Seq<u8>>::empty());
    }
}

/// The bytes of a query around its name: the id, one question and recursion
/// desired at the front, the root label, type A and class IN at the end; and
/// between them the name without the dots at its end, one byte longer.
pub proof fn queries_are_framed(id: u16, name: Seq<u8>)
    ensures
        ({
            let msg = query_message(id, name);
            let n = msg.len() as int;
            &&& n == trimmed_end(name, 46u8).len() + 18
            &&& msg[0] * 256 + msg[1] == id
            &&& msg[2] == 1 && msg[3] == 0
            &&& msg[4] == 0 && msg[5] == 1
            &&& msg[6] == 0 && msg[7] == 0 && msg[8] == 0 && msg[9] == 0 && msg[10] == 0 && msg[11]
                == 0
            &&& msg[n - 5] == 0
            &&& msg[n - 4] == 0 && msg[n - 3] == 1
            &&& msg[n - 2] == 0 && msg[n - 1] == 1
        }),
{
    let trimmed = trimmed_end(name, 46u8);
    labels_rejoin(trimmed);
    wire_length(labels(trimmed));
}

/// Dots at the end of a name count for nothing; those before it part its labels.
pub proof fn trailing_dots_count_for_nothing(name: Seq<u8>)
    ensures
        query_labels(name.push(46)) == query_labels(name),
        name.len() == 0 || name.last() != 46 ==> query_labels(name) == labels(name),
{
    assert(name.push(46).drop_last() =~= name);
}

/// Labels fit a query just if each has from one to sixty-three bytes.
pub proof fn labels_are_bounded(ls: Seq<Seq<u8>>, label: Seq<u8>)
    ensures
        labels_fit(Seq::empty()),
        labels_fit(ls.push(label)) <==> labels_fit(ls) && 1 <= label.len() <= 63,
{
    let more = ls.push(label);
    if labels_fit(more) {
        assert forall|i: int| 0 <= i < ls.len() implies 1 <= (#[trigger] ls[i]).len() <= 63 by {
            assert(more[i] == ls[i]);
        }
        assert(more[ls.len() as int] == label);
    }
}

/// Whether a target can be probed: with an IPv4 address, and for a name server
/// also one with a port.
pub open spec fn can_be_probed(t: Target) -> bool {
    match t.kind {
        TargetKind::Ping => t.parsed matches Address::Ip(IpAddr::V4(_)),
        TargetKind::Dns => (t.parsed matches Address::Ip(IpAddr::V4(_))) || (
        t.parsed matches Address::Socket(SocketAddr { ip: IpAddr::V4(_), .. })),
    }
}

/// Whether a tile can be shown: it looks back on an hour to ten years, and the
/// target it names exists.
pub open spec fn can_be_shown(tile: Tile, targets: Seq<Target>) -> bool {
    match tile {
        Tile::Uptime { hours, target, .. } => 1 <= hours <= 87_600 && (target is Some ==> exists|
            i: int,
        |
            0 <= i < targets.len() && (#[trigger] targets[i]).name@ == target->Some_0@),
        Tile::Outages { hours, .. } => 1 <= hours <= 87_600,
        Tile::Downtime { hours, .. } => 1 <= hours <= 87_600,
        Tile::Target { target, .. } => exists|i: int|
            0 <= i < targets.len() && (#[trigger] targets[i]).name@ == target@,
    }
}

proof fn sound_targets_have_no_fault(targets: Seq<Target>, i: int)
    requires
        0 <= i,
        forall|j: int, k: int|
            0 <= j < k < targets.len() ==> (#[trigger] targets[j]).name@ != (
            #[trigger] targets[k]).name@,
        forall|j: int| 0 <= j < targets.len() ==> can_be_probed(#[trigger] targets[j]),
    ensures
        targets_fault(targets, i) is None,
    decreases targets.len() - i,
{
    if i < targets.len() {
        assert(can_be_probed(targets[i]));
        assert forall|j: int| 0 <= j < i implies (#[trigger] targets.take(i)[j]).name@
            != targets[i].name@ by {
            assert(targets[j].name@ != targets[i].name@);
        }
        sound_targets_have_no_fault(targets, i + 1);
    }
}

proof fn sound_tiles_have_no_fault(tiles: Seq<Tile>, targets: Seq<Target>, i: int)
    requires
        0 <= i,
        forall|j: int| 0 <= j < tiles.len() ==> can_be_shown(#[trigger] tiles[j], targets),
    ensures
        tiles_fault(tiles, targets, i) is None,
    decreases tiles.len() - i,
{
    if i < tiles.len() {
        assert(can_be_shown(tiles[i], targets));
        sound_tiles_have_no_fault(tiles, targets, i + 1);
    }
}

proof fn tiles_without_fault_are_sound(tiles: Seq<Tile>, targets: Seq<Target>, i: int, j: int)
    requires
        0 <= i <= j < tiles.len(),
        tiles_fault(tiles, targets, i) is None,
    ensures
        can_be_shown(tiles[j], targets),
    decreases j - i,
{
    if i < j {
        tiles_without_fault_are_sound(tiles, targets, i + 1, j);
    }
}

/// A configuration is accepted just if it is sound: it has targets, all of them
/// with names of their own and addresses that can be probed; every number is in
/// its range; and every tile can be shown.
pub proof fn sound_configurations_are_accepted(cfg: Config)
    ensures
        cfg.fault() is None <==> {
            &&& cfg.targets@.len() > 0
            &&& forall|j: int, k: int|
                0 <= j < k < cfg.targets@.len() ==> (#[trigger] cfg.targets@[j]).name@ != (
                #[trigger] cfg.targets@[k]).name@
            &&& forall|j: int|
                0 <= j < cfg.targets@.len() ==> can_be_probed(#[trigger] cfg.targets@[j])
            &&& 5 <= cfg.interval_secs <= 86400
            &&& 3 <= cfg.window_samples <= 10_000
            &&& 1 <= cfg.probe_timeout_secs < cfg.interval_secs
            &&& cfg.fail_threshold >= 1 && cfg.recover_threshold >= 1
            &&& 1 <= cfg.retention_days <= 3650
            &&& cfg.degraded.cooldown_mins <= 525_600
            &&& cfg.degraded.loss_pct.finite() && cfg.degraded.loss_pct.steps() > 0
            &&& cfg.degraded.latency_ms.finite() && cfg.degraded.latency_ms.steps() > 0
            &&& forall|j: int|
                0 <= j < cfg.tiles@.len() ==> can_be_shown(#[trigger] cfg.tiles@[j], cfg.targets@)
        },
{
    if cfg.fault() is None {
        accepted_configurations_are_sound(cfg);
        assert forall|j: int| 0 <= j < cfg.tiles@.len() implies can_be_shown(
            #[trigger] cfg.tiles@[j],
            cfg.targets@,
        ) by {
            tiles_without_fault_are_sound(cfg.tiles@, cfg.targets@, 0, j);
        }
    } else if cfg.targets@.len() > 0 && (forall|j: int, k: int|
        0 <= j < k < cfg.targets@.len() ==> (#[trigger] cfg.targets@[j]).name@ != (
        #[trigger] cfg.targets@[k]).name@) && (forall|j: int|
        0 <= j < cfg.targets@.len() ==> can_be_probed(#[trigger] cfg.targets@[j])) {
        sound_targets_have_no_fault(cfg.targets@, 0);
        if forall|j: int|
            0 <= j < cfg.tiles@.len() ==> can_be_shown(#[trigger] cfg.tiles@[j], cfg.targets@) {
            sound_tiles_have_no_fault(cfg.tiles@, cfg.targets@, 0);
        }
    }
}

/// Whether a reason for refusing a configuration is true of it.
pub open spec fn applies(e: ConfigError, cfg: Config) -> bool {
    match e {
        ConfigError::NoTargets => cfg.targets@.len() == 0,
        ConfigError::DuplicateTarget { name } => exists|j: int, k: int|
            0 <= j < k < cfg.targets@.len() && (#[trigger] cfg.targets@[j]).name@ == (
            #[trigger] cfg.targets@[k]).name@ && cfg.targets@[k].name == name,
        ConfigError::NotAnAddress { name, addr } => exists|j: int|
            0 <= j < cfg.targets@.len() && (#[trigger] cfg.targets@[j]).name == name
                && cfg.targets@[j].addr == addr && cfg.targets@[j].kind == TargetKind::Ping
                && !(cfg.targets@[j].parsed is Ip),
        ConfigError::NotAServer { name, addr } => exists|j: int|
            0 <= j < cfg.targets@.len() && (#[trigger] cfg.targets@[j]).name == name
                && cfg.targets@[j].addr == addr && cfg.targets@[j].kind == TargetKind::Dns
                && cfg.targets@[j].parsed is Unreadable,
        ConfigError::Ipv6 { name } => exists|j: int|
            0 <= j < cfg.targets@.len() && (#[trigger] cfg.targets@[j]).name == name && match (
                cfg.targets@[j].kind,
                cfg.targets@[j].parsed,
            ) {
                (_, Address::Ip(ip)) => ip is V6,
                (TargetKind::Dns, Address::Socket(sa)) => sa.ip is V6,
                _ => false,
            },
        ConfigError::IntervalSecs => cfg.interval_secs < 5 || cfg.interval_secs > 86400,
        ConfigError::WindowSamples => cfg.window_samples < 3 || cfg.window_samples > 10_000,
        ConfigError::ProbeTimeoutSecs => cfg.probe_timeout_secs < 1 || cfg.probe_timeout_secs
            >= cfg.interval_secs,
        ConfigError::Thresholds => cfg.fail_threshold == 0 || cfg.recover_threshold == 0,
        ConfigError::RetentionDays => cfg.retention_days < 1 || cfg.retention_days > 3650,
        ConfigError::CooldownMins => cfg.degraded.cooldown_mins > 525_600,
        ConfigError::LossPct => !cfg.degraded.loss_pct.finite() || cfg.degraded.loss_pct.steps()
            <= 0,
        ConfigError::LatencyMs => !cfg.degraded.latency_ms.finite()
            || cfg.degraded.latency_ms.steps() <= 0,
        ConfigError::TileHours => exists|j: int|
            0 <= j < cfg.tiles@.len() && match #[trigger] cfg.tiles@[j] {
                Tile::Uptime { hours, .. } => hours < 1 || hours > 87_600,
                Tile::Outages { hours, .. } => hours < 1 || hours > 87_600,
                Tile::Downtime { hours, .. } => hours < 1 || hours > 87_600,
                Tile::Target { .. } => false,
            },
        ConfigError::UnknownTileTarget { name } => exists|j: int|
            0 <= j < cfg.tiles@.len() && match #[trigger] cfg.tiles@[j] {
                Tile::Uptime { target, .. } => target == Some(name),
                Tile::Target { target, .. } => target == name,
                _ => false,
            } && forall|k: int|
                0 <= k < cfg.targets@.len() ==> (#[trigger] cfg.targets@[k]).name@ != name@,
    }
}

proof fn target_faults_apply(cfg: Config, i: int)
    requires
        0 <= i,
        targets_fault(cfg.targets@, i) is Some,
    ensures
        applies(targets_fault(cfg.targets@, i)->Some_0, cfg),
        targets_fault(cfg.targets@, i)->Some_0 is DuplicateTarget || targets_fault(
            cfg.targets@,
            i,
        )->Some_0 is NotAnAddress || targets_fault(cfg.targets@, i)->Some_0 is NotAServer
            || targets_fault(cfg.targets@, i)->Some_0 is Ipv6,
    decreases cfg.targets@.len() - i,
{
    let targets = cfg.targets@;
    if i < targets.len() {
        if has_name(targets.take(i), targets[i].name@) {
            let j = choose|j: int|
                0 <= j < targets.take(i).len() && (#[trigger] targets.take(i)[j]).name@
                    == targets[i].name@;
            assert(targets[j].name@ == targets[i].name@);
        } else if targets[i].fault() is Some {
            assert(targets[i].name == targets[i].name);
        } else {
            target_faults_apply(cfg, i + 1);
        }
    }
}

proof fn tile_faults_apply(cfg: Config, i: int)
    requires
        0 <= i,
        tiles_fault(cfg.tiles@, cfg.targets@, i) is Some,
    ensures
        applies(tiles_fault(cfg.tiles@, cfg.targets@, i)->Some_0, cfg),
        tiles_fault(cfg.tiles@, cfg.targets@, i)->Some_0 is TileHours || tiles_fault(
            cfg.tiles@,
            cfg.targets@,
            i,
        )->Some_0 is UnknownTileTarget,
    decreases cfg.tiles@.len() - i,
{
    let tiles = cfg.tiles@;
    if i < tiles.len() {
        if tiles[i].fault(cfg.targets@) is Some {
            assert(tiles[i] == tiles[i]);
        } else {
            tile_faults_apply(cfg, i + 1);
        }
    }
}

/// The checks in their order.
pub open spec fn check_of(e: ConfigError) -> int {
    match e {
        ConfigError::NoTargets => 0,
        ConfigError::DuplicateTarget { .. } => 1,
        ConfigError::NotAnAddress { .. } => 1,
        ConfigError::NotAServer { .. } => 1,
        ConfigError::Ipv6 { .. } => 1,
        ConfigError::IntervalSecs => 2,
        ConfigError::WindowSamples => 3,
        ConfigError::ProbeTimeoutSecs => 4,
        ConfigError::Thresholds => 5,
        ConfigError::RetentionDays => 6,
        ConfigError::CooldownMins => 7,
        ConfigError::LossPct => 8,
        ConfigError::LatencyMs => 9,
        ConfigError::TileHours => 10,
        ConfigError::UnknownTileTarget { .. } => 10,
    }
}

/// A refused configuration is told a reason that is true of it, and no earlier
/// check would have refused it.
pub proof fn refusals_are_apt(cfg: Config, other: ConfigError)
    requires
        cfg.fault() is Some,
    ensures
        applies(cfg.fault()->Some_0, cfg),
        applies(other, cfg) ==> check_of(cfg.fault()->Some_0) <= check_of(other),
{
    if cfg.targets@.len() > 0 {
        if targets_fault(cfg.targets@, 0) is Some {
            target_faults_apply(cfg, 0);
        } else {
            if check_of(other) == 1 && applies(other, cfg) {
                assert(cfg.targets@.len() > 0);
                named_faults_are_found(cfg, other);
            }
            if cfg.numbers_fault() is None {
                tile_faults_apply(cfg, 0);
            }
        }
    }
}

proof fn named_faults_are_found(cfg: Config, e: ConfigError)
    requires
        check_of(e) == 1,
        applies(e, cfg),
    ensures
        targets_fault(cfg.targets@, 0) is Some,
{
    let targets = cfg.targets@;
    if targets_fault(targets, 0) is None {
        assert forall|j: int| 0 <= j < targets.len() implies can_be_probed(#[trigger] targets[j])
            && forall|k: int| 0 <= k < j ==> (#[trigger] targets[k]).name@ != targets[j].name@ by {
            targets_without_fault(targets, 0, j);
        }
    }
}

proof fn targets_without_fault(targets: Seq<Target>, i: int, j: int)
    requires
        0 <= i <= j < targets.len(),
        targets_fault(targets, i) is None,
    ensures
        can_be_probed(targets[j]),
        forall|k: int| 0 <= k < j ==> (#[trigger] targets[k]).name@ != targets[j].name@,
    decreases j - i,
{
    if i < j {
        targets_without_fault(targets, i + 1, j);
    } else {
        assert forall|k: int| 0 <= k < j implies (#[trigger] targets[k]).name@
            != targets[j].name@ by {
            assert(targets.take(j)[k] == targets[k]);
        }
    }
}

/// A refusal names the target at fault, and the address that could not be read,
/// as they were configured.
pub proof fn refusals_name_what_is_at_fault(name: String, addr: String)
    ensures
        (ConfigError::DuplicateTarget { name }).text() == "duplicate target name '"@ + name@ + "'"@,
        (ConfigError::NotAnAddress { name, addr }).text() == "target '"@ + name@ + "': addr '"@
            + addr@ + "' is not an IP address"@,
        (ConfigError::NotAServer { name, addr }).text() == "target '"@ + name@ + "': addr '"@
            + addr@ + "' is not an IP or IP:port"@,
        (ConfigError::Ipv6 { name }).text() == "target '"@ + name@
            + "': IPv6 addresses are not supported (probes are IPv4-only)"@,
        (ConfigError::UnknownTileTarget { name }).text() == "tile references unknown target '"@
            + name@ + "'"@,
{
}

/// A name server without a port is asked on port 53, and one with a port on
/// that. It is asked for the configured name.
pub proof fn servers_have_a_port(t: Target)
    ensures
        t.parsed is Unreadable ==> t.server() is None,
        t.parsed is Ip ==> t.server() is Some && t.server()->Some_0.ip == t.parsed->Ip_0
            && t.server()->Some_0.port == 53,
        t.parsed is Socket ==> t.server() == Some(t.parsed->Socket_0),
        t.query is Some ==> t.query_name() == t.query->Some_0@,
        t.query is None ==> t.query_name() == "www.google.com"@,
{
}

/// Whether an argument says that the next one is the configuration file.
pub open spec fn names_next(arg: Seq<char>) -> bool {
    arg == "--config"@ || arg == "-c"@
}

/// Whether an argument asks for help.
pub open spec fn asks_help(arg: Seq<char>) -> bool {
    arg == "--help"@ || arg == "-h"@
}

proof fn more_arguments(args: Seq<String>, more: Seq<String>, i: int, path: Option<Seq<char>>)
    requires
        0 <= i <= args.len(),
        path_from(args, i, path) is Some,
    ensures
        path_from(args + more, i, path) == path_from(
            args + more,
            args.len() as int,
            if i < args.len() {
                path_from(args, i, path)
            } else {
                path
            },
        ),
    decreases args.len() - i,
{
    if i < args.len() {
        assert((args + more)[i] == args[i]);
        if names_next(args[i]@) {
            assert((args + more)[i + 1] == args[i + 1]);
            more_arguments(args, more, i + 2, Some(args[i + 1]@));
        } else {
            more_arguments(args, more, i + 1, Some(args[i]@));
        }
    }
}

proof fn words_of_the_command_line()
    ensures
        "--config"@ != "--help"@,
        "--config"@ != "-h"@,
        "-c"@ != "--help"@,
        "-c"@ != "-h"@,
        "--config"@.len() > 0 && "--config"@[0] == '-',
        "-c"@.len() > 0 && "-c"@[0] == '-',
        "--help"@.len() > 0 && "--help"@[0] == '-',
        "-h"@.len() > 0 && "-h"@[0] == '-',
{
    reveal_strlit("--config");
    reveal_strlit("-c");
    reveal_strlit("--help");
    reveal_strlit("-h");
    assert("--config"@.len() == 8);
    assert("--help"@.len() == 6);
    assert("-c"@[1] == 'c');
    assert("-h"@[1] == 'h');
}

/// What each further argument makes of arguments that name a configuration file:
/// a flag names another one, a bare argument names one where none was given yet,
/// and anything else is refused. Without arguments the file is "config.toml".
pub proof fn arguments_are_read_in_turn(args: Seq<String>, x: String, y: String)
    requires
        path_from(args, 0, None) is Some,
    ensures
        path_from(Seq::empty(), 0, None) == Some("config.toml"@),
        names_next(x@) ==> path_from(args.push(x).push(y), 0, None) == Some(y@),
        names_next(x@) ==> path_from(args.push(x), 0, None) is None,
        asks_help(x@) ==> path_from(args.push(x), 0, None) is None,
        !names_next(x@) && (x@.len() == 0 || x@[0] != '-') && args.len() == 0 ==> path_from(
            args.push(x),
            0,
            None,
        ) == Some(x@),
        !names_next(x@) && args.len() > 0 ==> path_from(args.push(x), 0, None) is None,
        !names_next(x@) && x@.len() > 0 && x@[0] == '-' ==> path_from(args.push(x), 0, None) is None,
{
    words_of_the_command_line();
    reveal_with_fuel(path_from, 3);
    let one = seq![x];
    let two = seq![x, y];
    assert(args.push(x) =~= args + one);
    assert(args.push(x).push(y) =~= args + two);
    more_arguments(args, one, 0, None);
    more_arguments(args, two, 0, None);
    assert((args + one)[args.len() as int] == x);
    assert((args + two)[args.len() as int] == x);
    assert((args + two)[args.len() as int + 1] == y);
}

/// Arguments that were refused are mended by one more only if they lack the file
/// that their last one announces.
pub proof fn refused_arguments_stay_refused(args: Seq<String>, x: String)
    requires
        path_from(args, 0, None) is None,
        path_from(args.push(x), 0, None) is Some,
    ensures
        args.len() > 0,
        names_next(args.last()@),
        path_from(args.drop_last(), 0, None) is Some,
        path_from(args.push(x), 0, None) == Some(x@),
{
    mended_arguments(args, x, 0, None);
}

proof fn mended_arguments(args: Seq<String>, x: String, i: int, path: Option<Seq<char>>)
    requires
        0 <= i,
        path_from(args, i, path) is None,
        path_from(args.push(x), i, path) is Some,
    ensures
        i < args.len(),
        names_next(args.last()@),
        path_from(args.drop_last(), i, path) is Some,
        path_from(args.push(x), i, path) == Some(x@),
    decreases args.len() - i,
{
    reveal_with_fuel(path_from, 2);
    let more = args.push(x);
    if i < args.len() {
        assert(more[i] == args[i]);
        if names_next(args[i]@) {
            if i + 1 < args.len() {
                assert(more[i + 1] == args[i + 1]);
                mended_arguments(args, x, i + 2, Some(args[i + 1]@));
                assert(args.drop_last()[i] == args[i]);
                assert(args.drop_last()[i + 1] == args[i + 1]);
            } else {
                assert(more[i + 1] == x);
            }
        } else {
            mended_arguments(args, x, i + 1, Some(args[i]@));
            assert(args.drop_last()[i] == args[i]);
        }
    }
}

/// Stored state is resumed just if the last recorded cycle is at most ten
/// intervals old and something was down or failing.
pub proof fn only_recent_trouble_is_resumed(
    cfg: Config,
    now: u64,
    latest: Option<u64>,
    stored: Seq<Option<TargetResume>>,
    layers: LayerMap<(u64, bool)>,
    resume: Option<ResumeState>,
)
    requires
        stored.len() <= cfg.targets@.len(),
        resumes(cfg, now, latest, stored, layers, resume),
    ensures
        resume is Some ==> latest is Some && now <= latest->Some_0 + 10 * cfg.interval_secs,
        latest is Some && now <= latest->Some_0 + 10 * cfg.interval_secs && (exists|i: int|
            0 <= i < stored.len() && (#[trigger] stored[i]) is Some && stored[i]->Some_0.fails > 0)
            ==> resume is Some,
        latest is Some && now <= latest->Some_0 + 10 * cfg.interval_secs && (exists|i: int|
            0 <= i < cfg.targets@.len() && (#[trigger] cfg.targets@[i]).layer != Layer::Host
                && layers.at(cfg.targets@[i].layer) is Some) ==> resume is Some,
        resume is Some ==> resume->Some_0.targets@.len() == stored.len(),
{
    if exists|i: int|
        0 <= i < stored.len() && (#[trigger] stored[i]) is Some && stored[i]->Some_0.fails > 0 {
        let i = choose|i: int|
            0 <= i < stored.len() && (#[trigger] stored[i]) is Some && stored[i]->Some_0.fails > 0;
        let r = resumed_targets(cfg, stored, layers)[i];
        assert(r.fails > 0);
    }
    if exists|i: int|
        0 <= i < cfg.targets@.len() && (#[trigger] cfg.targets@[i]).layer != Layer::Host
            && layers.at(cfg.targets@[i].layer) is Some {
        let i = choose|i: int|
            0 <= i < cfg.targets@.len() && (#[trigger] cfg.targets@[i]).layer != Layer::Host
                && layers.at(cfg.targets@[i].layer) is Some;
        let l = cfg.targets@[i].layer;
        assert(has_layer(cfg.targets@, l));
        assert(resumed_layer(cfg.targets@, layers, l) is Some);
    }
}

/// A layer is resumed as down since its outage on record began, if it belongs to
/// the ladder, has targets and has an outage on record.
pub proof fn layers_resume_their_outages(
    cfg: Config,
    now: u64,
    latest: Option<u64>,
    stored: Seq<Option<TargetResume>>,
    layers: LayerMap<(u64, bool)>,
    resume: ResumeState,
    layer: Layer,
)
    requires
        resumes(cfg, now, latest, stored, layers, Some(resume)),
    ensures
        ({
            let present = exists|i: int|
                0 <= i < cfg.targets@.len() && (#[trigger] cfg.targets@[i]).layer == layer;
            let start = EngineModel::started(cfg, now, Some(resume)).layers.at(layer);
            let down = layer != Layer::Host && layers.at(layer) is Some;
            &&& start is Some <==> present
            &&& present && down ==> start->Some_0.status == Status::Down && start->Some_0.since
                == layers.at(layer)->Some_0.0 && start->Some_0.notified_down == layers.at(
                layer,
            )->Some_0.1 && start->Some_0.since_mono is None
            &&& present && !down ==> start->Some_0.status == Status::Up && start->Some_0.since
                == now && !start->Some_0.notified_down && start->Some_0.since_mono is None
            &&& present ==> !start->Some_0.notified_degraded
                && start->Some_0.last_degraded_alert is None
        }),
{
    let present = exists|i: int|
        0 <= i < cfg.targets@.len() && (#[trigger] cfg.targets@[i]).layer == layer;
    assert(has_layer(cfg.targets@, layer) == present);
    assert(resume.layers.at(layer) == resumed_layer(cfg.targets@, layers, layer));
}

/// A target is resumed as down if it had failed as often in a row as it takes, or
/// if its outage is on record and it has not yet answered as often as it takes
/// to be back. Its outage began with its failures or with its record, whichever
/// was earlier. Its streaks go on.
pub proof fn targets_resume_their_streaks(
    cfg: Config,
    t: Target,
    r: TargetResume,
    layers: LayerMap<(u64, bool)>,
)
    ensures
        ({
            let s = resumed_target(cfg, t, Some(r), layers);
            let present = exists|i: int|
                0 <= i < cfg.targets@.len() && (#[trigger] cfg.targets@[i]).layer == t.layer;
            let recorded = if t.layer == Layer::Host {
                r.on_record is Some
            } else {
                present && layers.at(t.layer) is Some
            };
            &&& s.up <==> r.fails < cfg.fail_threshold && (!recorded || r.oks
                >= cfg.recover_threshold)
            &&& r.fails <= u32::MAX ==> s.fails == r.fails
            &&& r.fails > u32::MAX ==> s.fails == u32::MAX
            &&& r.oks <= u32::MAX ==> s.oks == r.oks
            &&& r.oks > u32::MAX ==> s.oks == u32::MAX
            &&& s.up ==> s.down_since is None && !s.notified_down
            &&& !s.up && r.down_since is Some && r.on_record is Some ==> s.down_since is Some
                && s.down_since->Some_0 <= r.down_since->Some_0 && s.down_since->Some_0
                <= r.on_record->Some_0.0 && (s.down_since == r.down_since || s.down_since->Some_0
                == r.on_record->Some_0.0)
            &&& !s.up && r.down_since is None && r.on_record is Some ==> s.down_since == Some(
                r.on_record->Some_0.0,
            )
            &&& !s.up && r.on_record is None ==> s.down_since == r.down_since && !s.notified_down
            &&& !s.up && r.on_record is Some ==> s.notified_down == r.on_record->Some_0.1
        }),
        resumed_target(cfg, t, None, layers).up,
        resumed_target(cfg, t, None, layers).fails == 0,
        resumed_target(cfg, t, None, layers).oks == 0,
{
    let present = exists|i: int|
        0 <= i < cfg.targets@.len() && (#[trigger] cfg.targets@[i]).layer == t.layer;
    assert(has_layer(cfg.targets@, t.layer) == present);
}

/// A resumed target starts as it was resumed, with nothing in its window; one
/// that is not starts healthy.
pub proof fn targets_start_as_resumed(cfg: Config, now: u64, resume: Option<ResumeState>, i: int)
    requires
        0 <= i < cfg.targets@.len(),
    ensures
        EngineModel::started(cfg, now, resume).targets.len() == cfg.targets@.len(),
        ({
            let t = EngineModel::started(cfg, now, resume).targets[i];
            &&& t.window.len() == 0
            &&& t.down_since_mono is None
            &&& resume is Some && i < resume->Some_0.targets@.len() ==> {
                let r = resume->Some_0.targets@[i];
                &&& t.up == r.up
                &&& t.consec_fail == r.fails
                &&& t.consec_ok == r.oks
                &&& !r.up ==> t.down_since == r.down_since && t.notified_down == r.notified_down
                &&& r.up ==> t.down_since is None && !t.notified_down
            }
            &&& resume is None || i >= resume->Some_0.targets@.len() ==> t.up && t.consec_fail == 0
                && t.consec_ok == 0 && t.down_since is None && !t.notified_down
        }),
{
}

/// The outage on record: none after a recovery, otherwise since the latest "down"
/// event, or since the latest event where that was never seen; announced if the
/// latest event was.
pub proof fn records_tell_of_outages(e: EventMarkModel, down: i64)
    requires
        e.ts >= 0,
        down >= 0,
    ensures
        stored_outage(None, Some(down)) is None,
        e.kind == "up"@ ==> stored_outage(Some(e), Some(down)) is None,
        e.kind == "down"@ ==> stored_outage(Some(e), Some(down)) is Some && stored_outage(
            Some(e),
            Some(down),
        )->Some_0.0 == e.ts,
        e.kind == "still_down"@ ==> stored_outage(Some(e), Some(down)) is Some && stored_outage(
            Some(e),
            Some(down),
        )->Some_0.0 == down,
        e.kind == "still_down"@ ==> stored_outage(Some(e), None) is Some && stored_outage(
            Some(e),
            None,
        )->Some_0.0 == e.ts,
        stored_outage(Some(e), Some(down)) is Some ==> stored_outage(
            Some(e),
            Some(down),
        )->Some_0.1 == (e.notified != 0),
        stored_host_outage(Some(e), Some(down)) is Some <==> e.kind == "down"@ || e.kind
            == "still_down"@,
        stored_host_outage(Some(e), Some(down)) is Some ==> stored_host_outage(Some(e), Some(down))
            == stored_outage(Some(e), Some(down)),
        stored_host_outage(None, Some(down)) is None,
{
    kinds_are_distinct();
}

/// What is stored of a target: nothing before its first sample; up just if its
/// latest sample succeeded, down since its failures began otherwise; and its
/// streaks as they were counted.
pub proof fn samples_tell_of_targets(
    ok: i64,
    start: Option<i64>,
    fails: u64,
    oks: u64,
    last: Option<EventMarkModel>,
    down: Option<i64>,
)
    requires
        start is Some ==> start->Some_0 >= 0,
    ensures
        stored_target(None, start, fails, oks, last, down) is None,
        stored_target(Some(ok), start, fails, oks, last, down) is Some,
        ({
            let r = stored_target(Some(ok), start, fails, oks, last, down)->Some_0;
            &&& r.up <==> ok != 0
            &&& r.fails == fails && r.oks == oks
            &&& r.on_record == stored_host_outage(last, down)
            &&& r.up ==> r.down_since is None && !r.notified
            &&& !r.up && start is Some ==> r.down_since is Some && r.down_since->Some_0
                == start->Some_0
            &&& !r.up && start is None ==> r.down_since is None
            &&& !r.up ==> (r.notified <==> r.on_record is Some && r.on_record->Some_0.1)
        }),
{
}

/// What is done about the queue, event by event: what arrives is put last, what
/// was sent is taken off the front, what failed is tried again after a rest, and
/// before sending the oldest beyond fifty are dropped.
pub proof fn the_queue_is_worked_off(o: OutboxModel, msg: Msg)
    requires
        o.well_formed(),
    ensures
        o.step(Event::Arrived(msg)).enabled == o.enabled,
        o.action == Action::Receive || o.action == Action::Poll || o.action == Action::Rest
            ==> o.step(Event::Arrived(msg)).queue == o.queue.push(msg) && o.step(
            Event::Arrived(msg),
        ).action == Action::Poll,
        o.action == Action::Poll && o.queue.len() <= 50 ==> o.step(Event::Nothing).queue == o.queue,
        o.action == Action::Poll && o.queue.len() > 50 ==> o.step(Event::Nothing).queue.len() == 50
            && forall|k: int|
            0 <= k < 50 ==> #[trigger] o.step(Event::Nothing).queue[k] == o.queue[k + o.queue.len()
                - 50],
        o.action == Action::Poll && o.enabled ==> o.step(Event::Nothing).action == Action::Deliver,
        o.action == Action::Poll && !o.enabled ==> o.step(Event::Nothing).action == Action::Log,
        o.action == Action::Poll ==> o.step(Event::Closed) == o.step(Event::Nothing),
        o.action == Action::Rest ==> o.step(Event::Nothing).action == Action::Poll && o.step(
            Event::Nothing,
        ).queue == o.queue,
        o.action == Action::Receive || o.action == Action::Rest ==> o.step(Event::Closed).action
            == Action::Stop && o.step(Event::Closed).queue == o.queue,
        o.action == Action::Deliver ==> o.step(Event::Failed).action == Action::Rest && o.step(
            Event::Failed,
        ).queue == o.queue,
        o.action == Action::Deliver || o.action == Action::Log ==> o.step(Event::Sent).queue
            == o.queue.drop_first(),
        (o.action == Action::Deliver || o.action == Action::Log) && o.queue.len() == 1 ==> o.step(
            Event::Sent,
        ).action == Action::Receive,
        (o.action == Action::Deliver || o.action == Action::Log) && o.queue.len() > 1 ==> o.step(
            Event::Sent,
        ).action == o.action,
        o.action == Action::Stop ==> o.step(Event::Nothing) == o && o.step(Event::Closed) == o,
{
}

/// A notification is posted to its topic at the server, however many slashes the
/// server's address ends in.
pub proof fn posts_go_to_the_topic(cfg: NtfyConfig)
    ensures
        ({
            let url = topic_url(cfg);
            exists|n: int|
                0 <= n <= cfg.url@.len() && url == #[trigger] cfg.url@.take(n) + "/"@ + cfg.topic@
                    && (n > 0 ==> cfg.url@[n - 1] != '/') && forall|k: int|
                    n <= k < cfg.url@.len() ==> cfg.url@[k] == '/'
        }),
{
    trimming_takes_off_the_end_of_texts(cfg.url@, '/');
    let n = trimmed_end(cfg.url@, '/').len() as int;
    assert(topic_url(cfg) == cfg.url@.take(n) + "/"@ + cfg.topic@);
}

/// A notification carries its title, its priority as a number and its tags, and
/// where to go when it is tapped if that is configured.
pub proof fn posts_carry_the_notification(cfg: NtfyConfig, m: Msg)
    ensures
        ({
            let h = post_headers(cfg, m);
            &&& h.len() == (if cfg.click_url is Some {
                4int
            } else {
                3
            })
            &&& h[0].0 == "Title"@ && h[0].1 == m.title@
            &&& h[1].0 == "Priority"@ && all_digits(h[1].1) && read_number(h[1].1) == m.priority
            &&& h[2].0 == "Tags"@ && h[2].1 == m.tags@
            &&& cfg.click_url is Some ==> h[3].0 == "Click"@ && h[3].1 == cfg.click_url->Some_0@
        }),
{
    numbers_read_back(m.priority as nat);
}

/// Without anything to resume, every layer starts as up from now on, and nothing
/// has been measured. Nothing has been measured at any start.
pub proof fn a_fresh_start_is_up(
    cfg: Config,
    now: u64,
    resume: Option<ResumeState>,
    layer: Layer,
)
    ensures
        EngineModel::started(cfg, now, resume).cfg == cfg,
        EngineModel::started(cfg, now, resume).aggs.at(layer) is None,
        resume is None && EngineModel::started(cfg, now, resume).layers.at(layer) is Some ==> ({
            let ls = EngineModel::started(cfg, now, resume).layers.at(layer)->Some_0;
            &&& ls.status == Status::Up && ls.since == now && ls.since_mono is None
            &&& !ls.notified_down && !ls.notified_degraded && ls.last_degraded_alert is None
        }),
        EngineModel::started(cfg, now, resume).layers.at(layer) is Some <==> exists|i: int|
            0 <= i < cfg.targets@.len() && (#[trigger] cfg.targets@[i]).layer == layer,
{
    let present = exists|i: int|
        0 <= i < cfg.targets@.len() && (#[trigger] cfg.targets@[i]).layer == layer;
    assert(has_layer(cfg.targets@, layer) == present);
}

/// Nothing is resumed if nothing was down or failing: no target had failed, and
/// no outage is on record.
pub proof fn health_is_not_resumed(
    cfg: Config,
    now: u64,
    latest: Option<u64>,
    stored: Seq<Option<TargetResume>>,
    layers: LayerMap<(u64, bool)>,
    resume: Option<ResumeState>,
)
    requires
        stored.len() <= cfg.targets@.len(),
        resumes(cfg, now, latest, stored, layers, resume),
        cfg.fail_threshold >= 1,
        forall|i: int|
            0 <= i < stored.len() && (#[trigger] stored[i]) is Some ==> stored[i]->Some_0.fails == 0
                && stored[i]->Some_0.on_record is None,
        layers.lan is None,
        layers.gateway is None,
        layers.internet is None,
        layers.dns is None,
    ensures
        resume is None,
{
    let targets = resumed_targets(cfg, stored, layers);
    assert forall|i: int| 0 <= i < stored.len() implies (#[trigger] targets[i]).up
        && targets[i].fails == 0 by {
        assert(stored[i] is Some ==> stored[i]->Some_0.fails == 0);
        assert(resumed_layer(
            cfg.targets@,
            layers,
            cfg.targets@[i].layer,
        ) is None);
    }
}

/// A queue whose turn it is gets delivered where there is a topic, logged where
/// there is none, and waits for a notification where it is empty.
pub proof fn queues_take_their_turn(queue: Seq<Msg>, enabled: bool)
    ensures
        OutboxModel::sending(queue, enabled).queue == queue,
        OutboxModel::sending(queue, enabled).enabled == enabled,
        queue.len() == 0 ==> OutboxModel::sending(queue, enabled).action == Action::Receive,
        queue.len() > 0 && enabled ==> OutboxModel::sending(queue, enabled).action
            == Action::Deliver,
        queue.len() > 0 && !enabled ==> OutboxModel::sending(queue, enabled).action == Action::Log,
{
}

} // verus!
