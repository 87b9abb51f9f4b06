//! One target's rolling window and its up/down judgement.

use crate::binary64;
use crate::binary64::{sort_ranked, Binary64};
use crate::config::Config;
use crate::probes::ProbeResult;
use std::collections::VecDeque;
use vstd::prelude::*;

verus! {

/// Whole seconds from one reading of the monotonic clock to a later one, both
/// in nanoseconds; zero if the second is not later.
pub open spec fn seconds_between(earlier: u64, later: u64) -> u64 {
    if later >= earlier {
        ((later - earlier) / 1_000_000_000) as u64
    } else {
        0
    }
}

/// Whole seconds from one reading of the monotonic clock to a later one.
pub fn secs_between(earlier: u64, later: u64) -> (r: u64)
    ensures
        r == seconds_between(earlier, later),
{
    if later >= earlier {
        (later - earlier) / 1_000_000_000
    } else {
        0
    }
}

/// Seconds by the wall clock from `since` to `ts`; zero if that is not later.
pub open spec fn elapsed(since: u64, ts: u64) -> u64 {
    if ts >= since {
        (ts - since) as u64
    } else {
        0
    }
}

/// The wall-clock time some seconds before `now`, and zero before that.
pub open spec fn ago(now: u64, secs: int) -> u64 {
    if now >= secs {
        (now - secs) as u64
    } else {
        0
    }
}

/// The wall-clock time `count` units of `unit` seconds before `now`.
pub fn units_ago(now: u64, count: u64, unit: u64) -> (r: u64)
    ensures
        r == ago(now, count * unit),
{
    assert(count * unit <= 0xffff_ffff_ffff_ffff * 0xffff_ffff_ffff_ffff) by (nonlinear_arith)
        requires
            count <= 0xffff_ffff_ffff_ffff,
            unit <= 0xffff_ffff_ffff_ffff,
    ;
    let secs: u128 = count as u128 * unit as u128;
    if now as u128 >= secs {
        assert(count * unit >= 0) by (nonlinear_arith);
        now - secs as u64
    } else {
        0
    }
}

/// `n` or one more, short of overflow.
pub open spec fn next_count(n: u32) -> u32 {
    if n < u32::MAX {
        (n + 1) as u32
    } else {
        n
    }
}

/// What is known of one target.
pub struct TargetModel {
    /// The latest probes, oldest first: `None` = failed, `Some(ms)` = success.
    pub window: Seq<Option<Binary64>>,
    /// Failures since the last success. The count stops at the largest `u32`,
    /// which no threshold exceeds.
    pub consec_fail: u32,
    /// Successes since the last failure, counted likewise.
    pub consec_ok: u32,
    pub up: bool,
    /// When the target went down, by the wall clock.
    pub down_since: Option<u64>,
    /// When this process saw it go down, by the monotonic clock.
    pub down_since_mono: Option<u64>,
    /// Whether its outage was announced.
    pub notified_down: bool,
}

impl TargetModel {
    /// A target that was never probed. It is taken to be healthy, so that a
    /// clean start fires no recovery alerts.
    pub open spec fn fresh() -> TargetModel {
        TargetModel {
            window: Seq::empty(),
            consec_fail: 0,
            consec_ok: 0,
            up: true,
            down_since: None,
            down_since_mono: None,
            notified_down: false,
        }
    }

    /// With one more probe in the window, which holds at most `cap`.
    pub open spec fn recorded(self, res: ProbeResult, cap: nat) -> TargetModel {
        let kept = if self.window.len() >= cap && self.window.len() > 0 {
            self.window.drop_first()
        } else {
            self.window
        };
        TargetModel {
            window: kept.push(res.latency_ms),
            consec_ok: if res.ok {
                next_count(self.consec_ok)
            } else {
                0
            },
            consec_fail: if res.ok {
                0
            } else {
                next_count(self.consec_fail)
            },
            ..self
        }
    }

    /// The latency of the latest probe, if it succeeded.
    pub open spec fn last(self) -> Option<Binary64> {
        if self.window.len() > 0 {
            self.window.last()
        } else {
            None
        }
    }

    /// With a window of the latest probe alone, and of none if that failed.
    pub open spec fn window_reset(self) -> TargetModel {
        TargetModel {
            window: match self.last() {
                Some(ms) => seq![Some(ms)],
                None => Seq::empty(),
            },
            ..self
        }
    }

    /// The state after one more probe: down once the failures reach their
    /// threshold, up again once the successes reach theirs.
    pub open spec fn probed(self, res: ProbeResult, cfg: Config, ts: u64, mono: u64) -> TargetModel {
        let r = self.recorded(res, cfg.window_samples as nat);
        if r.up && r.consec_fail >= cfg.fail_threshold {
            TargetModel { up: false, down_since: Some(ts), down_since_mono: Some(mono), ..r }
        } else if !r.up && r.consec_ok >= cfg.recover_threshold {
            TargetModel { up: true, ..r.window_reset() }
        } else {
            r
        }
    }

    /// Failed probes in the window.
    pub open spec fn failures(self) -> nat {
        self.window.filter(|s: Option<Binary64>| s is None).len()
    }

    /// Latencies of the successful probes in the window.
    pub open spec fn latencies(self) -> Seq<Binary64> {
        self.window.filter(|s: Option<Binary64>| s is Some).map_values(
            |s: Option<Binary64>| s->Some_0,
        )
    }

    /// Packet loss in percent, once there are three probes to judge by.
    pub open spec fn loss(self) -> Option<Binary64> {
        if self.window.len() < 3 {
            None
        } else {
            Some(Binary64::percent_of(self.failures(), self.window.len()))
        }
    }

    /// The (upper) median latency.
    pub open spec fn median(self) -> Option<Binary64> {
        let ok = self.latencies();
        if ok.len() == 0 {
            None
        } else {
            Some(ok.sort_by(binary64::by_rank())[(ok.len() / 2) as int])
        }
    }

    /// How long the target has been down: by the monotonic clock where this
    /// process saw it go down, by the wall clock otherwise.
    pub open spec fn down_secs(self, ts: u64, mono: u64) -> u64 {
        match (self.down_since_mono, self.down_since) {
            (Some(m), _) => seconds_between(m, mono),
            (None, Some(since)) => elapsed(since, ts),
            (None, None) => 0,
        }
    }
}

/// Rolling window per target: None = failed probe, Some(ms) = success.
pub struct TargetState {
    window: VecDeque<Option<Binary64>>,
    consec_fail: u32,
    consec_ok: u32,
    up: bool,
    // Per-target alerting state, used for host-layer targets (ladder layers
    // alert at layer granularity instead).
    down_since: Option<u64>,
    // Set when the down transition was observed by this process; None when the
    // state was rehydrated from the database after a restart. Durations use
    // the monotonic clock when available so a clock step can't distort them.
    down_since_mono: Option<u64>,
    notified_down: bool,
}

impl View for TargetState {
    type V = TargetModel;

    closed spec fn view(&self) -> TargetModel {
        TargetModel {
            window: self.window@,
            consec_fail: self.consec_fail,
            consec_ok: self.consec_ok,
            up: self.up,
            down_since: self.down_since,
            down_since_mono: self.down_since_mono,
            notified_down: self.notified_down,
        }
    }
}

impl TargetState {
    pub fn new() -> (r: TargetState)
        ensures
            r@ == TargetModel::fresh(),
    {
        TargetState {
            window: VecDeque::new(),
            consec_fail: 0,
            consec_ok: 0,
            // Assume healthy at boot so a clean start doesn't fire recovery alerts.
            up: true,
            down_since: None,
            down_since_mono: None,
            notified_down: false,
        }
    }

    /// A target in the streak that it was in when its state was last stored.
    pub fn resume_streak(&mut self, fails: u32, oks: u32)
        ensures
            final(self)@ == (TargetModel { consec_fail: fails, consec_ok: oks, ..old(self)@ }),
    {
        self.consec_fail = fails;
        self.consec_ok = oks;
    }

    /// A target that was down when its state was last stored.
    pub fn resume_down(&mut self, down_since: Option<u64>, notified_down: bool)
        ensures
            final(self)@ == (TargetModel { up: false, down_since, notified_down, ..old(self)@ }),
    {
        self.up = false;
        self.down_since = down_since;
        self.notified_down = notified_down;
    }

    pub fn is_up(&self) -> (r: bool)
        ensures
            r == self@.up,
    {
        self.up
    }

    pub fn is_notified_down(&self) -> (r: bool)
        ensures
            r == self@.notified_down,
    {
        self.notified_down
    }

    pub fn set_notified_down(&mut self, notified_down: bool)
        ensures
            final(self)@ == (TargetModel { notified_down, ..old(self)@ }),
    {
        self.notified_down = notified_down;
    }

    /// Forgets the outage that has ended.
    pub fn clear_outage(&mut self)
        ensures
            final(self)@ == (TargetModel {
                notified_down: false,
                down_since: None,
                down_since_mono: None,
                ..old(self)@
            }),
    {
        self.notified_down = false;
        self.down_since = None;
        self.down_since_mono = None;
    }

    /// Takes one probe result into the window and the streak counts.
    pub fn record(&mut self, res: &ProbeResult, cap: usize)
        ensures
            final(self)@ == old(self)@.recorded(*res, cap as nat),
    {
        if self.window.len() >= cap {
            let _ = self.window.pop_front();
        }
        self.window.push_back(res.latency_ms);
        if res.ok {
            self.consec_ok = self.consec_ok.saturating_add(1);
            self.consec_fail = 0;
        } else {
            self.consec_fail = self.consec_fail.saturating_add(1);
            self.consec_ok = 0;
        }
        assert(self.window@ =~= old(self)@.recorded(*res, cap as nat).window);
    }

    /// The failure window from an outage would otherwise read as heavy packet
    /// loss and immediately re-alert as "degraded" right after recovery.
    pub fn reset_window_keep_last(&mut self)
        ensures
            final(self)@ == old(self)@.window_reset(),
    {
        let last = self.last_ms();
        self.window.clear();
        if let Some(ms) = last {
            self.window.push_back(Some(ms));
        }
        assert(self.window@ =~= old(self)@.window_reset().window);
    }

    /// Takes one probe result and judges whether the target is up.
    pub fn probe(&mut self, res: &ProbeResult, cfg: &Config, ts: u64, mono: u64)
        ensures
            final(self)@ == old(self)@.probed(*res, *cfg, ts, mono),
    {
        self.record(res, cfg.window_samples);
        if self.up && self.consec_fail >= cfg.fail_threshold {
            self.up = false;
            self.down_since = Some(ts);
            self.down_since_mono = Some(mono);
        } else if !self.up && self.consec_ok >= cfg.recover_threshold {
            self.up = true;
            self.reset_window_keep_last();
        }
    }

    /// Packet loss in percent, once there are three probes to judge by.
    pub fn loss_pct(&self) -> (r: Option<Binary64>)
        requires
            self@.window.len() < 0x20_0000_0000_0000,
        ensures
            r == self@.loss(),
    {
        if self.window.len() < 3 {
            return None;
        }
        let pred = Ghost(|s: Option<Binary64>| s is None);
        let mut fails: u64 = 0;
        let mut i: usize = 0;
        proof {
            reveal(Seq::filter);
            assert(self.window@.take(0).filter(pred@).len() == 0);
        }
        while i < self.window.len()
            invariant
                i <= self.window@.len(),
                self.window@.len() < 0x20_0000_0000_0000,
                fails <= i,
                pred@ == (|s: Option<Binary64>| s is None),
                fails == self.window@.take(i as int).filter(pred@).len(),
            decreases self.window@.len() - i,
        {
            proof {
                reveal(Seq::filter);
                assert(self.window@.take(i + 1).drop_last() =~= self.window@.take(i as int));
            }
            if self.window[i].is_none() {
                fails = fails + 1;
            }
            i = i + 1;
        }
        assert(self.window@.take(i as int) =~= self.window@);
        Some(Binary64::percent(fails, self.window.len() as u64))
    }

    /// The (upper) median latency of the successful probes.
    pub fn median_ms(&self) -> (r: Option<Binary64>)
        ensures
            r == self@.median(),
    {
        let pred = Ghost(|s: Option<Binary64>| s is Some);
        let get = Ghost(|s: Option<Binary64>| s->Some_0);
        let mut ok: Vec<Binary64> = Vec::new();
        let mut i: usize = 0;
        proof {
            reveal(Seq::filter);
            assert(self.window@.take(0).filter(pred@).map_values(get@) =~= ok@);
        }
        while i < self.window.len()
            invariant
                i <= self.window@.len(),
                pred@ == (|s: Option<Binary64>| s is Some),
                get@ == (|s: Option<Binary64>| s->Some_0),
                ok@ == self.window@.take(i as int).filter(pred@).map_values(get@),
            decreases self.window@.len() - i,
        {
            let ghost shorter = self.window@.take(i as int);
            let ghost longer = self.window@.take(i + 1);
            proof {
                reveal(Seq::filter);
                assert(longer.drop_last() =~= shorter);
                assert(longer.last() == self.window@[i as int]);
            }
            match self.window[i] {
                Some(ms) => {
                    ok.push(ms);
                    assert(ok@ =~= longer.filter(pred@).map_values(get@));
                },
                None => {
                    assert(ok@ =~= longer.filter(pred@).map_values(get@));
                },
            }
            i = i + 1;
        }
        assert(self.window@.take(i as int) =~= self.window@);
        if ok.len() == 0 {
            return None;
        }
        let sorted = sort_ranked(ok);
        Some(sorted[sorted.len() / 2])
    }

    /// The latency of the latest probe, if it succeeded.
    pub fn last_ms(&self) -> (r: Option<Binary64>)
        ensures
            r == self@.last(),
    {
        let len: usize = self.window.len();
        if len > 0 {
            self.window[len - 1]
        } else {
            None
        }
    }

    /// How long the target has been down.
    pub fn down_dur_secs(&self, ts: u64, mono: u64) -> (r: u64)
        ensures
            r == self@.down_secs(ts, mono),
    {
        match self.down_since_mono {
            Some(m) => secs_between(m, mono),
            None => match self.down_since {
                Some(since) => ts.saturating_sub(since),
                None => 0,
            },
        }
    }
}

} // verus!
