use pi_watcher::config::NtfyConfig;
use pi_watcher::notify::{build_post, post_url, Action, Event, Msg, Outbox, MAX_QUEUED, RETRY_SECS};

fn cfg(topic: &str) -> NtfyConfig {
    NtfyConfig {
        url: "https://ntfy.sh".to_string(),
        topic: topic.to_string(),
        token: None,
        click_url: None,
    }
}

fn msg(n: usize) -> Msg {
    Msg { title: format!("t{n}"), body: format!("b{n}"), priority: 4, tags: "warning" }
}

#[test]
fn a_failed_delivery_stays_in_front() {
    let mut outbox = Outbox::new(&cfg("home"));
    assert!(outbox.is_enabled());
    assert_eq!(outbox.next_action(), Action::Receive);
    assert!(outbox.front().is_none());
    assert_eq!(outbox.step(Event::Arrived(msg(1))), Action::Poll);
    assert_eq!(outbox.step(Event::Arrived(msg(2))), Action::Poll);
    assert_eq!(outbox.step(Event::Nothing), Action::Deliver);
    assert_eq!(outbox.step(Event::Failed), Action::Rest);
    assert_eq!(outbox.front().unwrap().title, "t1");
    assert_eq!(outbox.len(), 2);
    // The wait is over, or another notification ends it.
    assert_eq!(outbox.step(Event::Nothing), Action::Poll);
    assert_eq!(outbox.step(Event::Nothing), Action::Deliver);
    assert_eq!(outbox.step(Event::Failed), Action::Rest);
    assert_eq!(outbox.step(Event::Arrived(msg(3))), Action::Poll);
    assert_eq!(outbox.step(Event::Nothing), Action::Deliver);
    for title in ["t1", "t2", "t3"] {
        assert_eq!(outbox.next_action(), Action::Deliver);
        assert_eq!(outbox.front().unwrap().title, title);
        outbox.step(Event::Sent);
    }
    assert_eq!(outbox.next_action(), Action::Receive);
    assert_eq!(outbox.step(Event::Closed), Action::Stop);
    assert_eq!(outbox.step(Event::Arrived(msg(4))), Action::Stop);
    assert_eq!(outbox.len(), 0);
}

#[test]
fn the_oldest_are_dropped_beyond_the_limit() {
    assert_eq!(MAX_QUEUED, 50);
    assert_eq!(RETRY_SECS, 30);
    let mut outbox = Outbox::new(&cfg("home"));
    for n in 0..50 {
        outbox.step(Event::Arrived(msg(n)));
    }
    outbox.step(Event::Nothing);
    assert_eq!(outbox.len(), 50);
    outbox.step(Event::Failed);
    outbox.step(Event::Arrived(msg(50)));
    outbox.step(Event::Arrived(msg(51)));
    outbox.step(Event::Nothing);
    assert_eq!(outbox.len(), 50);
    for n in 2..52 {
        assert_eq!(outbox.front().unwrap().title, format!("t{n}"));
        outbox.step(Event::Sent);
    }
}

#[test]
fn what_is_queued_is_still_sent_when_no_more_can_arrive() {
    let mut outbox = Outbox::new(&cfg("home"));
    outbox.step(Event::Arrived(msg(1)));
    assert_eq!(outbox.step(Event::Closed), Action::Deliver);
    assert_eq!(outbox.step(Event::Sent), Action::Receive);
    let mut outbox = Outbox::new(&cfg("home"));
    outbox.step(Event::Arrived(msg(1)));
    outbox.step(Event::Nothing);
    outbox.step(Event::Failed);
    assert_eq!(outbox.step(Event::Closed), Action::Stop);
}

#[test]
fn without_a_topic_messages_are_logged() {
    let mut outbox = Outbox::new(&cfg(""));
    assert!(!outbox.is_enabled());
    outbox.step(Event::Arrived(msg(1)));
    assert_eq!(outbox.step(Event::Nothing), Action::Log);
    // There is nothing to fail about logging.
    assert_eq!(outbox.step(Event::Failed), Action::Log);
    assert_eq!(outbox.step(Event::Sent), Action::Receive);
}

#[test]
fn posts_carry_the_message() {
    let post = build_post(&cfg("home"), &msg(7));
    assert_eq!(
        post.headers,
        vec![
            ("Title", "t7".to_string()),
            ("Priority", "4".to_string()),
            ("Tags", "warning".to_string()),
        ]
    );
    assert_eq!(post.bearer, None);
    assert_eq!(post.body, "b7");
    let mut full = cfg("home");
    full.token = Some("secret".to_string());
    full.click_url = Some("http://pi.local:8080".to_string());
    let post = build_post(&full, &msg(7));
    assert_eq!(post.headers[3], ("Click", "http://pi.local:8080".to_string()));
    assert_eq!(post.bearer.as_deref(), Some("secret"));
}

#[test]
fn the_topic_follows_one_slash() {
    assert_eq!(post_url(&cfg("home")), "https://ntfy.sh/home");
    let mut slashes = cfg("home");
    slashes.url = "https://ntfy.example/sub//".to_string();
    assert_eq!(post_url(&slashes), "https://ntfy.example/sub/home");
    slashes.url = "//".to_string();
    assert_eq!(post_url(&slashes), "/home");
}
