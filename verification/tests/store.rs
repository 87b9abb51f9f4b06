use pi_watcher::store::{
    layer_resume, target_resume, uptime_sql, EventMark, TargetResume, ADD_TARGET_COLUMN_SQL,
    DOWNTIME_SQL, EVENTS_SQL, FAILURES_SQL, HISTORY_SQL, INSERT_EVENT_SQL, INSERT_SAMPLE_SQL,
    LAST_DOWN_SQL, LAST_HOST_DOWN_SQL, LAST_HOST_EVENT_SQL, LAST_OK_SQL, LAST_OUTAGE_EVENT_SQL,
    LATEST_CYCLE_SQL, OUTAGES_SQL, PRUNE_SQL, SCHEMA_SQL, STREAK_START_SQL, SUCCESSES_SQL,
    TARGET_COLUMNS_SQL,
};
use rusqlite::types::Value;
use rusqlite::{params_from_iter, Connection, OptionalExtension};

/// A database in memory, with the library's queries.
struct Store {
    conn: Connection,
}

fn mem() -> Store {
    let conn = Connection::open_in_memory().unwrap();
    conn.execute_batch(SCHEMA_SQL).unwrap();
    Store { conn }
}

fn row(name: &str, ok: bool, ms: Option<f64>) -> (String, bool, Option<f64>) {
    (name.to_string(), ok, ms)
}

impl Store {
    fn insert_cycle(&self, ts: i64, rows: &[(String, bool, Option<f64>)]) {
        for (name, ok, ms) in rows {
            self.conn.execute(INSERT_SAMPLE_SQL, (ts, name, *ok as i64, ms)).unwrap();
        }
    }

    fn insert_event(
        &self,
        ts: i64,
        layer: &str,
        kind: &str,
        target: Option<&str>,
        message: &str,
        duration_secs: Option<i64>,
        notified: bool,
    ) {
        self.conn
            .execute(
                INSERT_EVENT_SQL,
                (ts, layer, kind, target, message, duration_secs, notified as i64),
            )
            .unwrap();
    }

    fn uptime(&self, from: i64, targets: &[String]) -> Option<f64> {
        let sql = uptime_sql(targets.len())?;
        let mut args: Vec<Value> = vec![Value::Integer(from)];
        args.extend(targets.iter().map(|t| Value::Text(t.clone())));
        self.conn.query_row(&sql, params_from_iter(args), |r| r.get(0)).unwrap()
    }

    fn outage_stats(&self, from: i64) -> (i64, i64) {
        let outages = self.conn.query_row(OUTAGES_SQL, (from,), |r| r.get(0)).unwrap();
        let downtime = self.conn.query_row(DOWNTIME_SQL, (from,), |r| r.get(0)).unwrap();
        (outages, downtime)
    }

    fn latest_cycle_ts(&self) -> Option<i64> {
        self.conn.query_row(LATEST_CYCLE_SQL, (), |r| r.get(0)).unwrap()
    }

    fn target_resume(&self, name: &str) -> Option<TargetResume> {
        let last_ok = self.conn.query_row(LAST_OK_SQL, (name,), |r| r.get(0)).optional().unwrap();
        let streak_start = self.conn.query_row(STREAK_START_SQL, (name,), |r| r.get(0)).unwrap();
        let count = |sql: &str| -> i64 { self.conn.query_row(sql, (name,), |r| r.get(0)).unwrap() };
        let last_event = self
            .conn
            .query_row(LAST_HOST_EVENT_SQL, (name,), |r| {
                Ok(EventMark { kind: r.get(0)?, ts: r.get(1)?, notified: r.get(2)? })
            })
            .optional()
            .unwrap();
        let last_down =
            self.conn.query_row(LAST_HOST_DOWN_SQL, (name,), |r| r.get(0)).optional().unwrap();
        target_resume(
            last_ok,
            streak_start,
            count(FAILURES_SQL) as u64,
            count(SUCCESSES_SQL) as u64,
            last_event,
            last_down,
        )
    }

    fn layer_resume(&self, layer: &str) -> Option<(u64, bool)> {
        let last = self
            .conn
            .query_row(LAST_OUTAGE_EVENT_SQL, (layer,), |r| {
                Ok(EventMark { kind: r.get(0)?, ts: r.get(1)?, notified: r.get(2)? })
            })
            .optional()
            .unwrap();
        let last_down =
            self.conn.query_row(LAST_DOWN_SQL, (layer,), |r| r.get(0)).optional().unwrap();
        layer_resume(last, last_down)
    }
}

#[test]
fn uptime_counts_cycles_where_any_target_answered() {
    let s = mem();
    s.insert_cycle(100, &[row("a", true, Some(10.0)), row("b", false, None)]);
    s.insert_cycle(200, &[row("a", false, None), row("b", false, None)]);
    let names = vec!["a".to_string(), "b".to_string()];
    assert_eq!(s.uptime(0, &names), Some(0.5));
    assert_eq!(s.uptime(150, &names), Some(0.0));
    assert_eq!(s.uptime(0, &[]), None);
}

#[test]
fn outage_stats_counts_downs_and_sums_up_durations() {
    let s = mem();
    s.insert_event(100, "internet", "down", None, "down", None, true);
    s.insert_event(400, "internet", "up", None, "up", Some(300), true);
    // still_down must not inflate the outage count.
    s.insert_event(500, "internet", "still_down", None, "still", None, true);
    assert_eq!(s.outage_stats(0), (1, 300));
    assert_eq!(s.outage_stats(200), (0, 300));
}

#[test]
fn target_resume_finds_trailing_failure_streak() {
    let s = mem();
    s.insert_cycle(100, &[row("nas", true, Some(5.0))]);
    s.insert_cycle(200, &[row("nas", false, None)]);
    s.insert_cycle(300, &[row("nas", false, None)]);
    s.insert_event(300, "host", "down", Some("nas"), "nas down", None, true);

    let r = s.target_resume("nas").unwrap();
    assert!(!r.up);
    assert_eq!(r.down_since, Some(200));
    assert!(r.notified);

    assert!(s.target_resume("unknown").is_none());

    s.insert_cycle(400, &[row("nas", true, Some(5.0))]);
    let r = s.target_resume("nas").unwrap();
    assert!(r.up);
}

#[test]
fn layer_resume_reports_unrecovered_outage_from_its_start() {
    let s = mem();
    assert!(s.layer_resume("internet").is_none());

    s.insert_event(100, "internet", "down", None, "down", None, false);
    assert_eq!(s.layer_resume("internet"), Some((100, false)));

    // still_down points back at the original down for the start time.
    s.insert_event(200, "internet", "still_down", None, "still", None, true);
    assert_eq!(s.layer_resume("internet"), Some((100, true)));

    s.insert_event(300, "internet", "up", None, "up", Some(200), true);
    assert!(s.layer_resume("internet").is_none());
}

#[test]
fn latest_cycle_ts_tracks_samples() {
    let s = mem();
    assert_eq!(s.latest_cycle_ts(), None);
    s.insert_cycle(123, &[row("a", true, Some(1.0))]);
    assert_eq!(s.latest_cycle_ts(), Some(123));
}

#[test]
fn migrates_events_table_without_target_column() {
    let conn = Connection::open_in_memory().unwrap();
    conn.execute_batch(
        "CREATE TABLE events (
            id INTEGER PRIMARY KEY,
            ts INTEGER NOT NULL,
            layer TEXT NOT NULL,
            kind TEXT NOT NULL,
            message TEXT NOT NULL,
            duration_secs INTEGER,
            notified INTEGER NOT NULL DEFAULT 1
        );
        INSERT INTO events (ts, layer, kind, message) VALUES (1, 'internet', 'down', 'x');",
    )
    .unwrap();
    conn.execute_batch(SCHEMA_SQL).unwrap();
    let columns: i64 = conn.query_row(TARGET_COLUMNS_SQL, (), |r| r.get(0)).unwrap();
    assert_eq!(columns, 0);
    conn.execute(ADD_TARGET_COLUMN_SQL, ()).unwrap();
    let columns: i64 = conn.query_row(TARGET_COLUMNS_SQL, (), |r| r.get(0)).unwrap();
    assert_eq!(columns, 1);
    let s = Store { conn };
    s.insert_event(2, "host", "down", Some("nas"), "y", None, true);
    let mut stmt = s.conn.prepare(EVENTS_SQL).unwrap();
    let times: Vec<i64> =
        stmt.query_map((10,), |r| r.get(0)).unwrap().map(|t| t.unwrap()).collect();
    assert_eq!(times.len(), 2);
    assert_eq!(times, vec![2, 1]);
}

#[test]
fn history_is_bucketed_and_pruned() {
    let s = mem();
    s.insert_cycle(100, &[row("a", true, Some(10.0))]);
    s.insert_cycle(130, &[row("a", false, None)]);
    s.insert_cycle(190, &[row("a", true, Some(30.0))]);
    let read = |from: i64| -> Vec<(String, i64, Option<f64>, i64, i64)> {
        let mut stmt = s.conn.prepare(HISTORY_SQL).unwrap();
        stmt.query_map((60, from), |r| {
            Ok((r.get(0)?, r.get(1)?, r.get(2)?, r.get(3)?, r.get(4)?))
        })
        .unwrap()
        .map(|r| r.unwrap())
        .collect()
    };
    assert_eq!(
        read(0),
        vec![
            ("a".to_string(), 60, Some(10.0), 1, 0),
            ("a".to_string(), 120, None, 1, 1),
            ("a".to_string(), 180, Some(30.0), 1, 0),
        ]
    );
    assert_eq!(s.conn.execute(PRUNE_SQL, (130,)).unwrap(), 1);
    assert_eq!(read(0).len(), 2);
}

#[test]
fn a_target_that_never_succeeded_has_no_start() {
    let s = mem();
    s.insert_cycle(100, &[row("nas", false, None)]);
    s.insert_cycle(200, &[row("nas", false, None)]);
    let r = s.target_resume("nas").unwrap();
    assert!(!r.up);
    assert_eq!(r.down_since, None);
    assert!(!r.notified);
    assert_eq!((r.fails, r.oks), (2, 0));
    assert_eq!(r.on_record, None);
}

#[test]
fn streaks_and_the_outage_on_record_are_read_back() {
    let s = mem();
    for ts in [100, 130, 160] {
        s.insert_cycle(ts, &[row("nas", false, None), row("pi", true, Some(1.0))]);
    }
    s.insert_event(160, "host", "down", Some("nas"), "nas down", None, false);
    s.insert_event(190, "host", "still_down", Some("nas"), "nas still down", None, true);
    s.insert_event(190, "host", "up", Some("pi"), "pi up", Some(9), true);
    s.insert_cycle(190, &[row("nas", true, Some(5.0)), row("pi", false, None)]);
    s.insert_cycle(220, &[row("nas", true, Some(5.0)), row("pi", false, None)]);
    let r = s.target_resume("nas").unwrap();
    assert!(r.up);
    assert_eq!((r.fails, r.oks), (0, 2));
    assert_eq!(r.on_record, Some((160, true)));
    let r = s.target_resume("pi").unwrap();
    assert!(!r.up);
    assert_eq!((r.fails, r.oks), (2, 0));
    assert_eq!(r.down_since, Some(190));
    assert_eq!(r.on_record, None);
}

#[test]
fn a_host_event_that_was_not_announced_is_not_notified() {
    let mark = |kind: &str, notified: i64| {
        Some(EventMark { kind: kind.to_string(), ts: 9, notified })
    };
    let resume = |m| target_resume(Some(0), Some(7), 1, 0, m, None).unwrap();
    assert!(resume(mark("still_down", 1)).notified);
    assert!(!resume(mark("down", 0)).notified);
    assert_eq!(resume(mark("down", 0)).on_record, Some((9, false)));
    assert!(!resume(mark("up", 1)).notified);
    assert_eq!(resume(mark("up", 1)).on_record, None);
    assert!(!resume(None).notified);
    assert!(target_resume(None, Some(7), 1, 0, mark("down", 1), None).is_none());
}

#[test]
fn a_still_down_without_a_down_began_by_itself() {
    let last = EventMark { kind: "still_down".to_string(), ts: 50, notified: 1 };
    assert_eq!(layer_resume(Some(last), None), Some((50, true)));
}

#[test]
fn uptime_queries_name_every_target() {
    assert_eq!(uptime_sql(0), None);
    assert!(uptime_sql(1).unwrap().contains("IN (?)"));
    assert!(uptime_sql(3).unwrap().contains("IN (?,?,?)"));
}
