//! The queue of notifications and what to send for each.

use crate::config::NtfyConfig;
use crate::text;
use crate::text::push_decimal;
use std::collections::VecDeque;
use vstd::prelude::*;
use vstd::string::*;

verus! {

/// A notification.
#[derive(Clone, Debug)]
pub struct Msg {
    pub title: String,
    pub body: String,
    /// ntfy priority: 1 min .. 5 urgent
    pub priority: u8,
    pub tags: &'static str,
}

/// How many undelivered notifications are kept.
pub const MAX_QUEUED: usize = 50;

/// How long to wait before another delivery attempt.
pub const RETRY_SECS: u64 = 30;

/// The newest `MAX_QUEUED` of some notifications.
pub open spec fn newest(queue: Seq<Msg>) -> Seq<Msg> {
    if queue.len() > MAX_QUEUED {
        queue.skip(queue.len() - MAX_QUEUED)
    } else {
        queue
    }
}

/// What to do next about the queue.
#[derive(Clone, Copy, PartialEq, Eq, Debug, Structural)]
pub enum Action {
    /// Nothing is queued: wait for a notification.
    Receive,
    /// Take in what else has arrived, without waiting.
    Poll,
    /// Try to deliver the oldest notification.
    Deliver,
    /// Log the oldest notification; there is nowhere to send it.
    Log,
    /// Wait before another attempt, or for another notification.
    Rest,
    /// There is nobody left to send any.
    Stop,
}

/// What came of an action.
#[derive(Clone, Debug)]
pub enum Event {
    /// A notification arrived.
    Arrived(Msg),
    /// None has arrived, or none during the wait.
    Nothing,
    /// None will arrive any more.
    Closed,
    /// The oldest notification was delivered or logged.
    Sent,
    /// The oldest notification could not be delivered.
    Failed,
}

/// The undelivered notifications, oldest first, whether there is a topic to
/// send them to, and what is being done about them.
pub struct OutboxModel {
    pub queue: Seq<Msg>,
    pub enabled: bool,
    pub action: Action,
}

impl OutboxModel {
    /// Something is queued unless the outbox waits for it or has stopped, and
    /// is only delivered where there is a topic.
    pub open spec fn well_formed(self) -> bool {
        match self.action {
            Action::Receive => self.queue.len() == 0,
            Action::Poll => self.queue.len() > 0,
            Action::Deliver => self.queue.len() > 0 && self.enabled,
            Action::Log => self.queue.len() > 0 && !self.enabled,
            Action::Rest => self.queue.len() > 0,
            Action::Stop => true,
        }
    }

    /// What to do about a queue whose turn it is.
    pub open spec fn sending(queue: Seq<Msg>, enabled: bool) -> OutboxModel {
        OutboxModel {
            queue,
            enabled,
            action: if queue.len() == 0 {
                Action::Receive
            } else if enabled {
                Action::Deliver
            } else {
                Action::Log
            },
        }
    }

    /// Whether the outbox is about to take a notification in.
    pub open spec fn takes(self) -> bool {
        self.action == Action::Receive || self.action == Action::Poll || self.action
            == Action::Rest
    }

    /// Whether the outbox is about to send its oldest notification.
    pub open spec fn sends(self) -> bool {
        self.action == Action::Deliver || self.action == Action::Log
    }

    /// The outbox after an event. One that cannot come of the action changes
    /// nothing.
    pub open spec fn step(self, event: Event) -> OutboxModel {
        match event {
            Event::Arrived(m) => if self.takes() {
                OutboxModel { queue: self.queue.push(m), action: Action::Poll, ..self }
            } else {
                self
            },
            Event::Nothing => if self.action == Action::Poll {
                OutboxModel::sending(newest(self.queue), self.enabled)
            } else if self.action == Action::Rest {
                OutboxModel { action: Action::Poll, ..self }
            } else {
                self
            },
            Event::Closed => if self.action == Action::Poll {
                OutboxModel::sending(newest(self.queue), self.enabled)
            } else if self.action == Action::Receive || self.action == Action::Rest {
                OutboxModel { action: Action::Stop, ..self }
            } else {
                self
            },
            Event::Sent => if self.sends() {
                OutboxModel::sending(self.queue.drop_first(), self.enabled)
            } else {
                self
            },
            Event::Failed => if self.action == Action::Deliver {
                OutboxModel { action: Action::Rest, ..self }
            } else {
                self
            },
        }
    }
}

/// The undelivered notifications, oldest first. When the link is down, the
/// "down" alert can't leave the house - it must survive until the link comes
/// back so the phone still gets the story.
pub struct Outbox {
    queue: VecDeque<Msg>,
    enabled: bool,
    action: Action,
}

impl View for Outbox {
    type V = OutboxModel;

    closed spec fn view(&self) -> OutboxModel {
        OutboxModel { queue: self.queue@, enabled: self.enabled, action: self.action }
    }
}

impl Outbox {
    /// An empty queue. Without a topic, notifications are only logged.
    pub fn new(cfg: &NtfyConfig) -> (r: Outbox)
        ensures
            r@ == OutboxModel::sending(Seq::empty(), cfg.topic@.len() > 0),
            r@.well_formed(),
    {
        let r = Outbox {
            queue: VecDeque::new(),
            enabled: !cfg.topic.as_str().is_empty(),
            action: Action::Receive,
        };
        assert(r@.queue =~= Seq::<Msg>::empty());
        r
    }

    pub fn is_enabled(&self) -> (r: bool)
        ensures
            r == self@.enabled,
    {
        self.enabled
    }

    pub fn len(&self) -> (r: usize)
        ensures
            r == self@.queue.len(),
    {
        self.queue.len()
    }

    /// What to do next.
    pub fn next_action(&self) -> (r: Action)
        ensures
            r == self@.action,
    {
        self.action
    }

    /// The notification whose turn it is.
    pub fn front(&self) -> (r: Option<&Msg>)
        ensures
            match r {
                Some(m) => self@.queue.len() > 0 && *m == self@.queue[0],
                None => self@.queue.len() == 0,
            },
    {
        if self.queue.len() > 0 {
            Some(&self.queue[0])
        } else {
            None
        }
    }

    /// Drops the oldest notifications beyond the limit.
    fn trim(&mut self)
        ensures
            final(self)@ == (OutboxModel { queue: newest(old(self)@.queue), ..old(self)@ }),
    {
        let ghost before = self.queue@;
        assert(before.skip(0) =~= before);
        while self.queue.len() > MAX_QUEUED
            invariant
                self.queue@.len() <= before.len(),
                self.queue@ == before.skip(before.len() - self.queue@.len()),
                before.len() > MAX_QUEUED ==> self.queue@.len() >= MAX_QUEUED,
                before.len() <= MAX_QUEUED ==> self.queue@.len() == before.len(),
                self.enabled == old(self).enabled,
                self.action == old(self).action,
            decreases self.queue@.len(),
        {
            let _ = self.queue.pop_front();
            assert(self.queue@ =~= before.skip(before.len() - self.queue@.len()));
        }
    }

    /// Turns to the queue.
    fn send(&mut self)
        ensures
            final(self)@ == OutboxModel::sending(old(self)@.queue, old(self)@.enabled),
    {
        self.action = if self.queue.len() == 0 {
            Action::Receive
        } else if self.enabled {
            Action::Deliver
        } else {
            Action::Log
        };
    }

    /// Notes what came of the action, and gives what to do next.
    pub fn step(&mut self, event: Event) -> (r: Action)
        requires
            old(self)@.well_formed(),
        ensures
            final(self)@ == old(self)@.step(event),
            final(self)@.well_formed(),
            r == final(self)@.action,
    {
        match event {
            Event::Arrived(m) => {
                match self.action {
                    Action::Receive | Action::Poll | Action::Rest => {
                        self.queue.push_back(m);
                        self.action = Action::Poll;
                    },
                    _ => {},
                }
            },
            Event::Nothing => {
                if self.action == Action::Poll {
                    self.trim();
                    self.send();
                } else if self.action == Action::Rest {
                    self.action = Action::Poll;
                }
            },
            Event::Closed => {
                if self.action == Action::Poll {
                    self.trim();
                    self.send();
                } else if self.action == Action::Receive || self.action == Action::Rest {
                    self.action = Action::Stop;
                }
            },
            Event::Sent => {
                if self.action == Action::Deliver || self.action == Action::Log {
                    let _ = self.queue.pop_front();
                    assert(self.queue@ =~= old(self)@.queue.drop_first());
                    self.send();
                }
            },
            Event::Failed => {
                if self.action == Action::Deliver {
                    self.action = Action::Rest;
                }
            },
        }
        self.action
    }
}

/// Where notifications are posted.
pub open spec fn topic_url(cfg: NtfyConfig) -> Seq<char> {
    text::trimmed_end(cfg.url@, '/') + "/"@ + cfg.topic@
}

/// Where notifications are posted.
pub fn post_url(cfg: &NtfyConfig) -> (r: String)
    ensures
        r@ == topic_url(*cfg),
{
    let url = cfg.url.as_str();
    let mut end: usize = url.unicode_len();
    assert(url@.take(end as int) =~= url@);
    while end > 0 && url.get_char(end - 1) == '/'
        invariant
            end <= url@.len(),
            text::trimmed_end(url@.take(end as int), '/') == text::trimmed_end(url@, '/'),
        decreases end,
    {
        assert(url@.take(end as int).drop_last() =~= url@.take(end - 1));
        end = end - 1;
    }
    assert(url@.subrange(0, end as int) =~= url@.take(end as int));
    url.substring_char(0, end).to_owned().concat("/").concat(cfg.topic.as_str())
}

/// A request that posts a notification.
pub struct Post {
    /// Header names and values.
    pub headers: Vec<(&'static str, String)>,
    pub bearer: Option<String>,
    pub body: String,
}

/// What the headers say.
pub open spec fn headers_of(headers: Seq<(&'static str, String)>) -> Seq<(Seq<char>, Seq<char>)> {
    headers.map_values(|h: (&'static str, String)| (h.0@, h.1@))
}

/// The headers that carry a notification.
pub open spec fn post_headers(cfg: NtfyConfig, m: Msg) -> Seq<(Seq<char>, Seq<char>)> {
    let always = seq![
        ("Title"@, m.title@),
        ("Priority"@, text::decimal(m.priority as nat)),
        ("Tags"@, m.tags@),
    ];
    match cfg.click_url {
        Some(click) => always.push(("Click"@, click@)),
        None => always,
    }
}

/// The request that posts a notification.
pub fn build_post(cfg: &NtfyConfig, m: &Msg) -> (r: Post)
    ensures
        headers_of(r.headers@) == post_headers(*cfg, *m),
        r.bearer == cfg.token,
        r.body@ == m.body@,
{
    let mut priority = String::new();
    push_decimal(&mut priority, m.priority as u64);
    assert(priority@ =~= text::decimal(m.priority as nat));
    let mut headers: Vec<(&'static str, String)> = Vec::new();
    headers.push(("Title", m.title.clone()));
    headers.push(("Priority", priority));
    headers.push(("Tags", m.tags.to_owned()));
    if let Some(click) = &cfg.click_url {
        headers.push(("Click", click.clone()));
    }
    assert(headers_of(headers@) =~= post_headers(*cfg, *m));
    let bearer: Option<String> = match &cfg.token {
        Some(t) => Some(t.clone()),
        None => None,
    };
    Post { headers, bearer, body: m.body.clone() }
}

impl OutboxModel {
    /// The outbox after some events.
    pub open spec fn run(self, events: Seq<Event>) -> OutboxModel
        decreases events.len(),
    {
        if events.len() == 0 {
            self
        } else {
            self.run(events.drop_last()).step(events.last())
        }
    }

    /// The notifications that some events take in, in order.
    pub open spec fn taken(self, events: Seq<Event>) -> Seq<Msg>
        decreases events.len(),
    {
        if events.len() == 0 {
            Seq::empty()
        } else {
            let before = self.taken(events.drop_last());
            match events.last() {
                Event::Arrived(m) if self.run(events.drop_last()).takes() => before.push(m),
                _ => before,
            }
        }
    }

    /// The notifications that some events send off, in order.
    pub open spec fn sent(self, events: Seq<Event>) -> Seq<Msg>
        decreases events.len(),
    {
        if events.len() == 0 {
            Seq::empty()
        } else {
            let before = self.sent(events.drop_last());
            let outbox = self.run(events.drop_last());
            if events.last() is Sent && outbox.sends() {
                before.push(outbox.queue[0])
            } else {
                before
            }
        }
    }

    /// Whether no more than the limit ever wait.
    pub open spec fn within_limit(self, events: Seq<Event>) -> bool {
        forall|k: int|
            0 <= k <= events.len() ==> (#[trigger] self.run(events.take(k))).queue.len()
                <= MAX_QUEUED
    }
}

/// An outbox stays in order.
pub proof fn outboxes_stay_well_formed(m: OutboxModel, events: Seq<Event>)
    requires
        m.well_formed(),
    ensures
        m.run(events).well_formed(),
    decreases events.len(),
{
    if events.len() > 0 {
        outboxes_stay_well_formed(m, events.drop_last());
    }
}

/// Every notification is sent exactly once and in order: while no more than the
/// limit wait, what was sent, followed by what is still queued, is what was
/// queued at first, followed by what was taken in.
pub proof fn every_notification_is_sent_once(m: OutboxModel, events: Seq<Event>)
    requires
        m.well_formed(),
        m.within_limit(events),
    ensures
        m.sent(events) + m.run(events).queue == m.queue + m.taken(events),
    decreases events.len(),
{
    if events.len() == 0 {
        assert(m.sent(events) + m.queue =~= m.queue + m.taken(events));
    } else {
        let fewer = events.drop_last();
        assert forall|k: int| 0 <= k <= fewer.len() implies (#[trigger] m.run(
            fewer.take(k),
        )).queue.len() <= MAX_QUEUED by {
            assert(fewer.take(k) =~= events.take(k));
            assert(m.run(events.take(k)).queue.len() <= MAX_QUEUED);
        }
        every_notification_is_sent_once(m, fewer);
        outboxes_stay_well_formed(m, fewer);
        assert(fewer.take(fewer.len() as int) =~= fewer);
        let before = m.run(fewer);
        assert(before.queue.len() <= MAX_QUEUED);
        assert(m.sent(events) + m.run(events).queue =~= m.queue + m.taken(events)) by {
            let all = m.sent(fewer) + before.queue;
            match events.last() {
                Event::Arrived(msg) if before.takes() => {
                    assert(m.sent(fewer) + before.queue.push(msg) =~= all.push(msg));
                    assert(m.queue + m.taken(fewer).push(msg) =~= (m.queue + m.taken(
                        fewer,
                    )).push(msg));
                },
                Event::Sent if before.sends() => {
                    assert(m.sent(fewer).push(before.queue[0]) + before.queue.drop_first() =~= all);
                },
                _ => {},
            }
        }
    }
}

/// A notification whose delivery fails stays first: as long as nothing is sent
/// and no more than the limit wait, it is still the one whose turn it is.
pub proof fn a_failed_notification_stays_first(m: OutboxModel, events: Seq<Event>)
    requires
        m.well_formed(),
        m.queue.len() > 0,
        m.within_limit(events),
        m.sent(events).len() == 0,
    ensures
        m.run(events).queue.len() > 0,
        m.run(events).queue[0] == m.queue[0],
{
    every_notification_is_sent_once(m, events);
    assert(m.sent(events) + m.run(events).queue =~= m.run(events).queue);
    assert((m.queue + m.taken(events))[0] == m.queue[0]);
}

/// Once deliveries succeed, the queue empties, oldest first: each success sends
/// off one more.
pub proof fn an_unhindered_queue_empties(m: OutboxModel, events: Seq<Event>)
    requires
        m.well_formed(),
        m.sends(),
        events.len() <= m.queue.len(),
        forall|k: int| 0 <= k < events.len() ==> (#[trigger] events[k]) is Sent,
    ensures
        m.sent(events) == m.queue.take(events.len() as int),
        m.run(events) == OutboxModel::sending(m.queue.skip(events.len() as int), m.enabled),
    decreases events.len(),
{
    if events.len() == 0 {
        assert(m.sent(events) =~= m.queue.take(0));
        assert(m.queue.skip(0) =~= m.queue);
    } else {
        let fewer = events.drop_last();
        let n = fewer.len() as int;
        assert forall|k: int| 0 <= k < fewer.len() implies (#[trigger] fewer[k]) is Sent by {
            assert(fewer[k] == events[k]);
        }
        an_unhindered_queue_empties(m, fewer);
        assert(events[n] is Sent);
        assert(m.queue.skip(n)[0] == m.queue[n]);
        assert(m.queue.skip(n).drop_first() =~= m.queue.skip(n + 1));
        assert(m.queue.take(n).push(m.queue[n]) =~= m.queue.take(n + 1));
    }
}

/// The queue after a failed delivery, some newer notifications and a trim.
pub open spec fn after_outage(queue: Seq<Msg>, newer: Seq<Msg>) -> Seq<Msg> {
    newest(queue + newer)
}

/// An undelivered notification survives the outage that it is about: as long
/// as no more than the limit wait after it, it is still queued, behind the same
/// ones as before.
pub proof fn undelivered_notifications_survive(queue: Seq<Msg>, newer: Seq<Msg>, i: int)
    requires
        0 <= i < queue.len(),
        queue.len() - i + newer.len() <= MAX_QUEUED,
    ensures
        ({
            let kept = after_outage(queue, newer);
            let dropped = queue.len() + newer.len() - kept.len();
            &&& 0 <= dropped <= i
            &&& kept[i - dropped] == queue[i]
        }),
{
}

/// What is kept is the newest part of what was queued, in order, and never more
/// than the limit.
pub proof fn trimming_keeps_the_newest(queue: Seq<Msg>)
    ensures
        newest(queue).len() <= MAX_QUEUED,
        queue.len() <= MAX_QUEUED ==> newest(queue) == queue,
        newest(queue) == queue.skip(queue.len() - newest(queue).len()),
        newest(newest(queue)) == newest(queue),
{
    assert(queue.skip(0) =~= queue);
}

} // verus!
