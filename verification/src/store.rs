//! What the stored rows mean.

use crate::binary64::Binary64;
use crate::text::is_text;
use vstd::prelude::*;
use vstd::string::*;

verus! {

/// Sets a database up: write-ahead logging with `synchronous = NORMAL` keeps
/// SD-card writes cheap and safe enough.
pub const SCHEMA_SQL: &'static str = "
            PRAGMA journal_mode = WAL;
            PRAGMA synchronous = NORMAL;
            PRAGMA journal_size_limit = 8388608;
            PRAGMA busy_timeout = 5000;
            CREATE TABLE IF NOT EXISTS samples (
                id INTEGER PRIMARY KEY,
                ts INTEGER NOT NULL,
                target TEXT NOT NULL,
                ok INTEGER NOT NULL,
                latency_ms REAL
            );
            CREATE INDEX IF NOT EXISTS idx_samples_ts ON samples(ts);
            CREATE INDEX IF NOT EXISTS idx_samples_target_ts ON samples(target, ts);
            CREATE TABLE IF NOT EXISTS events (
                id INTEGER PRIMARY KEY,
                ts INTEGER NOT NULL,
                layer TEXT NOT NULL,
                kind TEXT NOT NULL,
                target TEXT,
                message TEXT NOT NULL,
                duration_secs INTEGER,
                notified INTEGER NOT NULL DEFAULT 1
            );
            CREATE INDEX IF NOT EXISTS idx_events_ts ON events(ts);
            ";

/// Counts the `target` columns of the events table.
pub const TARGET_COLUMNS_SQL: &'static str =
    "SELECT COUNT(*) FROM pragma_table_info('events') WHERE name = 'target'";

/// Adds the `target` column to an events table without one.
pub const ADD_TARGET_COLUMN_SQL: &'static str = "ALTER TABLE events ADD COLUMN target TEXT";

/// Stores a sample. All samples in one cycle share the same timestamp so
/// per-cycle aggregation (GROUP BY ts) works.
pub const INSERT_SAMPLE_SQL: &'static str =
    "INSERT INTO samples (ts, target, ok, latency_ms) VALUES (?1, ?2, ?3, ?4)";

/// Stores an event.
pub const INSERT_EVENT_SQL: &'static str =
    "INSERT INTO events (ts, layer, kind, target, message, duration_secs, notified)
             VALUES (?1, ?2, ?3, ?4, ?5, ?6, ?7)";

/// Samples per target and bucket of time, with their mean latency.
pub const HISTORY_SQL: &'static str =
    "SELECT target, (ts / ?1) * ?1 AS b, AVG(latency_ms), COUNT(*),
                    SUM(CASE WHEN ok = 0 THEN 1 ELSE 0 END)
             FROM samples WHERE ts >= ?2
             GROUP BY target, b ORDER BY b ASC";

/// The latest events.
pub const EVENTS_SQL: &'static str =
    "SELECT ts, layer, kind, message, duration_secs
             FROM events ORDER BY ts DESC, id DESC LIMIT ?1";

/// Outages of the internet layer, by their "down" events.
pub const OUTAGES_SQL: &'static str =
    "SELECT COUNT(*) FROM events WHERE layer = 'internet' AND kind = 'down' AND ts >= ?1";

/// Downtime of the internet layer, by its "up" events. An outage still in
/// progress has no downtime yet; one that started before the window but
/// recovered inside it contributes its full duration.
pub const DOWNTIME_SQL: &'static str =
    "SELECT COALESCE(SUM(duration_secs), 0) FROM events
             WHERE layer = 'internet' AND kind = 'up' AND ts >= ?1";

/// Timestamp of the most recent probe cycle, if any.
pub const LATEST_CYCLE_SQL: &'static str = "SELECT MAX(ts) FROM samples";

/// Whether a target's latest sample succeeded.
pub const LAST_OK_SQL: &'static str =
    "SELECT ok FROM samples WHERE target = ?1 ORDER BY ts DESC, id DESC LIMIT 1";

/// When the failures since a target's latest success began. Nothing is later
/// than a success that never was, so the answer is NULL for a target that never
/// succeeded.
pub const STREAK_START_SQL: &'static str =
    "SELECT MIN(ts) FROM samples WHERE target = ?1
               AND ts > (SELECT MAX(ts) FROM samples WHERE target = ?1 AND ok = 1)";

/// How many samples of a target failed since its latest success.
pub const FAILURES_SQL: &'static str =
    "SELECT COUNT(*) FROM samples WHERE target = ?1 AND ok = 0
               AND ts > COALESCE((SELECT MAX(ts) FROM samples WHERE target = ?1 AND ok = 1), -1)";

/// How many samples of a target succeeded since its latest failure.
pub const SUCCESSES_SQL: &'static str =
    "SELECT COUNT(*) FROM samples WHERE target = ?1 AND ok = 1
               AND ts > COALESCE((SELECT MAX(ts) FROM samples WHERE target = ?1 AND ok = 0), -1)";

/// A host's latest event.
pub const LAST_HOST_EVENT_SQL: &'static str =
    "SELECT kind, ts, notified FROM events
                 WHERE layer = 'host' AND target = ?1
                 ORDER BY ts DESC, id DESC LIMIT 1";

/// When a host last went down.
pub const LAST_HOST_DOWN_SQL: &'static str =
    "SELECT ts FROM events WHERE layer = 'host' AND target = ?1 AND kind = 'down'
                     ORDER BY ts DESC, id DESC LIMIT 1";

/// A layer's latest event among those that tell of an outage.
pub const LAST_OUTAGE_EVENT_SQL: &'static str =
    "SELECT kind, ts, notified FROM events
                 WHERE layer = ?1 AND kind IN ('down', 'still_down', 'up')
                 ORDER BY ts DESC, id DESC LIMIT 1";

/// When a layer last went down.
pub const LAST_DOWN_SQL: &'static str =
    "SELECT ts FROM events WHERE layer = ?1 AND kind = 'down'
                     ORDER BY ts DESC, id DESC LIMIT 1";

/// Drops old samples.
pub const PRUNE_SQL: &'static str = "DELETE FROM samples WHERE ts < ?1";

/// One target's samples in one bucket of time.
#[derive(Clone, Debug)]
pub struct HistoryRow {
    pub target: String,
    pub bucket: u64,
    pub avg_ms: Option<Binary64>,
    pub total: u32,
    pub fails: u32,
}

/// A recorded event.
#[derive(Clone, Debug)]
pub struct EventRow {
    pub ts: u64,
    pub layer: String,
    pub kind: String,
    pub message: String,
    pub duration_secs: Option<u64>,
}

/// Last observed state of one target, for rehydration after a restart.
#[derive(Clone, Copy, Debug)]
pub struct TargetResume {
    /// Whether the latest sample succeeded.
    pub up: bool,
    /// Start of the trailing failure streak (None if it never succeeded).
    pub down_since: Option<u64>,
    /// Whether the down event for this streak was notified (host targets).
    pub notified: bool,
    /// Failed samples since the latest success.
    pub fails: u64,
    /// Successful samples since the latest failure.
    pub oks: u64,
    /// The outage on record (host targets): when it began and whether it was
    /// notified. None if the latest event reports none.
    pub on_record: Option<(u64, bool)>,
}

/// The kind, the time and the notified flag of a recorded event.
#[derive(Clone, Debug)]
pub struct EventMark {
    pub kind: String,
    pub ts: i64,
    pub notified: i64,
}

/// What a recorded event says.
pub struct EventMarkModel {
    pub kind: Seq<char>,
    pub ts: i64,
    pub notified: i64,
}

impl View for EventMark {
    type V = EventMarkModel;

    open spec fn view(&self) -> EventMarkModel {
        EventMarkModel { kind: self.kind@, ts: self.ts, notified: self.notified }
    }
}

/// Whether an event reports that something is down.
pub open spec fn reports_down(kind: Seq<char>) -> bool {
    kind == "down"@ || kind == "still_down"@
}

/// The outage of a host, from its latest event and the time of its latest
/// "down" event: when it began, and whether it was notified. `None` if the
/// latest event does not report the host down.
pub open spec fn stored_host_outage(last: Option<EventMarkModel>, last_down: Option<i64>) -> Option<
    (u64, bool),
> {
    match last {
        Some(e) if reports_down(e.kind) => stored_outage(last, last_down),
        _ => None,
    }
}

/// The state of a target, from its latest sample, the first sample after its
/// latest success, its streaks and its latest events. `None` if it was never
/// sampled.
pub open spec fn stored_target(
    last_ok: Option<i64>,
    streak_start: Option<i64>,
    fails: u64,
    oks: u64,
    last_event: Option<EventMarkModel>,
    last_down: Option<i64>,
) -> Option<TargetResume> {
    let on_record = stored_host_outage(last_event, last_down);
    match last_ok {
        None => None,
        Some(ok) => Some(
            if ok != 0 {
                TargetResume { up: true, down_since: None, notified: false, fails, oks, on_record }
            } else {
                TargetResume {
                    up: false,
                    down_since: match streak_start {
                        Some(t) => Some(t as u64),
                        None => None,
                    },
                    notified: on_record is Some && on_record->Some_0.1,
                    fails,
                    oks,
                    on_record,
                }
            },
        ),
    }
}

/// What a mark that may be missing says.
pub open spec fn mark_of(mark: Option<EventMark>) -> Option<EventMarkModel> {
    match mark {
        Some(e) => Some(e@),
        None => None,
    }
}

/// The state of a target, from its stored rows: whether its latest sample
/// succeeded, when the failures since its latest success began (`None` if it
/// never succeeded), how many samples failed since the latest success and
/// succeeded since the latest failure, its latest event, and the time of its
/// latest "down" event.
pub fn target_resume(
    last_ok: Option<i64>,
    streak_start: Option<i64>,
    fails: u64,
    oks: u64,
    last_event: Option<EventMark>,
    last_down: Option<i64>,
) -> (r: Option<TargetResume>)
    ensures
        r == stored_target(
            last_ok,
            streak_start,
            fails,
            oks,
            mark_of(last_event),
            last_down,
        ),
{
    let ok: i64 = match last_ok {
        Some(ok) => ok,
        None => {
            return None;
        },
    };
    let reported: bool = match &last_event {
        Some(e) => is_text(&e.kind, "down") || is_text(&e.kind, "still_down"),
        None => false,
    };
    let on_record: Option<(u64, bool)> = if reported {
        layer_resume(last_event, last_down)
    } else {
        None
    };
    if ok != 0 {
        return Some(
            TargetResume { up: true, down_since: None, notified: false, fails, oks, on_record },
        );
    }
    let down_since: Option<u64> = match streak_start {
        Some(t) => Some(t as u64),
        None => None,
    };
    let notified: bool = match on_record {
        Some((_, notified)) => notified,
        None => false,
    };
    Some(TargetResume { up: false, down_since, notified, fails, oks, on_record })
}

/// The outage of a layer, from its latest event among those that tell of one
/// and the time of its latest "down" event: when it began, and whether it was
/// notified. `None` if the layer was up.
pub open spec fn stored_outage(last: Option<EventMarkModel>, last_down: Option<i64>) -> Option<
    (u64, bool),
> {
    match last {
        None => None,
        Some(e) => if e.kind == "up"@ {
            None
        } else {
            Some(
                (
                    // A still_down belongs to an outage that began at the last 'down'.
                    (if e.kind == "down"@ {
                        e.ts
                    } else {
                        match last_down {
                            Some(t) => t,
                            None => e.ts,
                        }
                    }) as u64,
                    e.notified != 0,
                ),
            )
        },
    }
}

/// If a layer's last recorded state was an unrecovered outage, gives when it
/// began and whether it was notified. None means it was up.
pub fn layer_resume(last: Option<EventMark>, last_down: Option<i64>) -> (r: Option<(u64, bool)>)
    ensures
        r == stored_outage(mark_of(last), last_down),
{
    let e: EventMark = match last {
        Some(e) => e,
        None => {
            return None;
        },
    };
    if is_text(&e.kind, "up") {
        return None;
    }
    let since: i64 = if is_text(&e.kind, "down") {
        e.ts
    } else {
        match last_down {
            Some(t) => t,
            None => e.ts,
        }
    };
    Some((since as u64, e.notified != 0))
}

/// `n` question marks between commas.
pub open spec fn placeholders(n: nat) -> Seq<char>
    decreases n,
{
    if n == 0 {
        Seq::empty()
    } else if n == 1 {
        "?"@
    } else {
        placeholders((n - 1) as nat) + ",?"@
    }
}

/// The query for the share of cycles since some time in which at least one of
/// some targets answered.
pub open spec fn uptime_query(targets: nat) -> Seq<char> {
    "SELECT AVG(u) FROM (
                SELECT MAX(ok) AS u FROM samples
                WHERE ts >= ? AND target IN ("@ + placeholders(targets)
        + ")
                GROUP BY ts
             )"@
}

/// The query for the share of cycles since some time in which at least one of
/// `targets` targets answered; `None` without a target.
pub fn uptime_sql(targets: usize) -> (r: Option<String>)
    ensures
        match r {
            Some(q) => targets > 0 && q@ == uptime_query(targets as nat),
            None => targets == 0,
        },
{
    if targets == 0 {
        return None;
    }
    let mut sql = "SELECT AVG(u) FROM (
                SELECT MAX(ok) AS u FROM samples
                WHERE ts >= ? AND target IN (".to_owned();
    let ghost head = sql@;
    sql.append("?");
    let mut n: usize = 1;
    while n < targets
        invariant
            1 <= n <= targets,
            sql@ == head + placeholders(n as nat),
        decreases targets - n,
    {
        sql.append(",?");
        n = n + 1;
        assert(sql@ =~= head + placeholders(n as nat));
    }
    sql.append(")
                GROUP BY ts
             )");
    assert(sql@ =~= uptime_query(targets as nat));
    Some(sql)
}

} // verus!
