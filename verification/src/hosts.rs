//! The alert state of one watched host.

use crate::config::Target;
use crate::events::{duration_text, fmt_duration, EventModel, PendingEvent};
use crate::layer::Layer;
use crate::target::{TargetModel, TargetState};
use vstd::prelude::*;
use vstd::string::*;

verus! {

/// The event of a host, from whether it was up before its latest probe and its
/// state since. A host alerts on its own: silently if it is configured so or if
/// the LAN is down, and belatedly, if it is still down, once the LAN is back.
pub open spec fn host_event(
    t: Target,
    was_up: bool,
    st: TargetModel,
    lan_down: bool,
    ts: u64,
    mono: u64,
) -> Option<EventModel> {
    if !st.up && was_up {
        Some(
            EventModel {
                layer: Layer::Host,
                kind: "down"@,
                target: Some(t.name@),
                title: t.name@ + " DOWN"@,
                message: t.name@ + " ("@ + t.addr@ + ") stopped responding."@,
                duration_secs: None,
                notify: t.alert && !lan_down,
                priority: 4,
                tags: "rotating_light"@,
            },
        )
    } else if !st.up && t.alert && !st.notified_down && !lan_down {
        Some(
            EventModel {
                layer: Layer::Host,
                kind: "still_down"@,
                target: Some(t.name@),
                title: t.name@ + " DOWN"@,
                message: t.name@ + " ("@ + t.addr@ + ") is not responding. Still down after "@
                    + duration_text(st.down_secs(ts, mono)) + "."@,
                duration_secs: None,
                notify: true,
                priority: 4,
                tags: "rotating_light"@,
            },
        )
    } else if st.up && !was_up {
        Some(
            EventModel {
                layer: Layer::Host,
                kind: "up"@,
                target: Some(t.name@),
                title: t.name@ + " recovered"@,
                message: t.name@ + " back after "@ + duration_text(st.down_secs(ts, mono)) + "."@,
                duration_secs: Some(st.down_secs(ts, mono)),
                notify: st.notified_down && !lan_down,
                priority: 3,
                tags: "white_check_mark"@,
            },
        )
    } else {
        None
    }
}

/// The state of a host after its event.
pub open spec fn host_settled(t: Target, was_up: bool, st: TargetModel, lan_down: bool) -> TargetModel {
    if !st.up && was_up {
        TargetModel { notified_down: t.alert && !lan_down, ..st }
    } else if !st.up && t.alert && !st.notified_down && !lan_down {
        TargetModel { notified_down: true, ..st }
    } else if st.up && !was_up {
        TargetModel { notified_down: false, down_since: None, down_since_mono: None, ..st }
    } else {
        st
    }
}

/// Settles one host and gives its event.
pub(crate) fn settle_host(
    t: &Target,
    was_up: bool,
    st: &mut TargetState,
    lan_down: bool,
    ts: u64,
    mono: u64,
) -> (r: Option<PendingEvent>)
    ensures
        final(st)@ == host_settled(*t, was_up, old(st)@, lan_down),
        match r {
            Some(e) => host_event(*t, was_up, old(st)@, lan_down, ts, mono) == Some(e@),
            None => host_event(*t, was_up, old(st)@, lan_down, ts, mono) is None,
        },
{
    if !st.is_up() {
        if was_up {
            let notify: bool = t.alert && !lan_down;
            st.set_notified_down(notify);
            Some(
                PendingEvent {
                    layer: Layer::Host,
                    kind: "down",
                    target: Some(t.name.clone()),
                    title: t.name.clone().concat(" DOWN"),
                    message: t.name.clone().concat(" (").concat(t.addr.as_str()).concat(
                        ") stopped responding.",
                    ),
                    duration_secs: None,
                    notify,
                    priority: 4,
                    tags: "rotating_light",
                },
            )
        } else if t.alert && !st.is_notified_down() && !lan_down {
            let dur: u64 = st.down_dur_secs(ts, mono);
            st.set_notified_down(true);
            Some(
                PendingEvent {
                    layer: Layer::Host,
                    kind: "still_down",
                    target: Some(t.name.clone()),
                    title: t.name.clone().concat(" DOWN"),
                    message: t.name.clone().concat(" (").concat(t.addr.as_str()).concat(
                        ") is not responding. Still down after ",
                    ).concat(fmt_duration(dur).as_str()).concat("."),
                    duration_secs: None,
                    notify: true,
                    priority: 4,
                    tags: "rotating_light",
                },
            )
        } else {
            None
        }
    } else if !was_up {
        let dur: u64 = st.down_dur_secs(ts, mono);
        let notify: bool = st.is_notified_down() && !lan_down;
        st.clear_outage();
        Some(
            PendingEvent {
                layer: Layer::Host,
                kind: "up",
                target: Some(t.name.clone()),
                title: t.name.clone().concat(" recovered"),
                message: t.name.clone().concat(" back after ").concat(
                    fmt_duration(dur).as_str(),
                ).concat("."),
                duration_secs: Some(dur),
                notify,
                priority: 3,
                tags: "white_check_mark",
            },
        )
    } else {
        None
    }
}

} // verus!
