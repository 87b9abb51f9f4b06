//! What to probe and what a probe found.

use crate::binary64::Binary64;
use crate::text;
use crate::text::push_decimal;
use vstd::prelude::*;
use vstd::string::*;

verus! {

/// An internet address, by its number.
#[derive(Clone, Copy, Debug, PartialEq, Eq, Structural)]
pub enum IpAddr {
    V4(u32),
    V6(u128),
}

/// An internet address with a port.
#[derive(Clone, Copy, Debug, PartialEq, Eq, Structural)]
pub struct SocketAddr {
    pub ip: IpAddr,
    pub port: u16,
}

/// What the text of an address reads as.
#[derive(Clone, Copy, Debug, PartialEq, Eq, Structural)]
pub enum Address {
    /// Neither of the following.
    Unreadable,
    /// An address alone.
    Ip(IpAddr),
    /// An address and a port.
    Socket(SocketAddr),
}

#[derive(Clone, Debug)]
pub enum ProbeSpec {
    Ping(IpAddr),
    /// DNS A-record lookup against a specific server: (server, query name).
    Dns(SocketAddr, String),
}

#[derive(Clone, Debug)]
pub struct ProbeResult {
    pub ok: bool,
    pub latency_ms: Option<Binary64>,
    pub error: Option<String>,
}

impl ProbeResult {
    pub fn success(ms: Binary64) -> (r: ProbeResult)
        ensures
            r.ok,
            r.latency_ms == Some(ms),
            r.error is None,
    {
        ProbeResult { ok: true, latency_ms: Some(ms), error: None }
    }

    pub fn fail(err: String) -> (r: ProbeResult)
        ensures
            !r.ok,
            r.latency_ms is None,
            r.error == Some(err),
    {
        ProbeResult { ok: false, latency_ms: None, error: Some(err) }
    }

    /// The result of a finished probe: its latency, or why it failed.
    pub fn from_outcome(outcome: Result<Binary64, String>) -> (r: ProbeResult)
        ensures
            r.ok == outcome is Ok,
            r.latency_ms == outcome.ok(),
            r.error == outcome.err(),
    {
        match outcome {
            Ok(ms) => ProbeResult::success(ms),
            Err(e) => ProbeResult::fail(e),
        }
    }
}

/// The labels of a dotted name: a dot ends one and begins the next.
pub open spec fn labels(name: Seq<u8>) -> Seq<Seq<u8>>
    decreases name.len(),
{
    if name.len() == 0 {
        seq![Seq::empty()]
    } else {
        let before = labels(name.drop_last());
        if name.last() == 46 {
            before.push(Seq::empty())
        } else {
            before.drop_last().push(before.last().push(name.last()))
        }
    }
}

/// The labels of a query name: dots at its end count for nothing.
pub open spec fn query_labels(name: Seq<u8>) -> Seq<Seq<u8>> {
    labels(text::trimmed_end(name, 46u8))
}

/// Whether every label is of a length that a query can carry.
pub open spec fn labels_fit(labels: Seq<Seq<u8>>) -> bool {
    forall|i: int| 0 <= i < labels.len() ==> 1 <= (#[trigger] labels[i]).len() <= 63
}

/// Labels in wire format: each after its length.
pub open spec fn wire_labels(labels: Seq<Seq<u8>>) -> Seq<u8>
    decreases labels.len(),
{
    if labels.len() == 0 {
        Seq::empty()
    } else {
        wire_labels(labels.drop_last()).push(labels.last().len() as u8) + labels.last()
    }
}

/// The header of a query for one name with recursion desired.
pub open spec fn query_header(id: u16) -> Seq<u8> {
    seq![
        (id / 256) as u8,
        (id % 256) as u8,
        0x01,
        0x00,
        0x00,
        0x01,
        0x00,
        0x00,
        0x00,
        0x00,
        0x00,
        0x00,
    ]
}

/// The end of a question: the root label, type A, class IN.
pub open spec fn question_end() -> Seq<u8> {
    seq![0x00, 0x00, 0x01, 0x00, 0x01]
}

/// A DNS query for the address of a name.
pub open spec fn query_message(id: u16, name: Seq<u8>) -> Seq<u8> {
    query_header(id) + wire_labels(query_labels(name)) + question_end()
}

/// Appends one label after its length, if it fits.
fn push_label(msg: &mut Vec<u8>, name: &[u8], from: usize, to: usize) -> (r: bool)
    requires
        from <= to <= name@.len(),
    ensures
        r == (1 <= to - from <= 63),
        r ==> final(msg)@ == old(msg)@.push((to - from) as u8) + name@.subrange(
            from as int,
            to as int,
        ),
{
    if from == to || to - from > 63 {
        return false;
    }
    let ghost before = msg@;
    msg.push((to - from) as u8);
    let mut i: usize = from;
    while i < to
        invariant
            from <= i <= to <= name@.len(),
            msg@ == before.push((to - from) as u8) + name@.subrange(from as int, i as int),
        decreases to - i,
    {
        msg.push(name[i]);
        i = i + 1;
        assert(msg@ =~= before.push((to - from) as u8) + name@.subrange(from as int, i as int));
    }
    true
}

/// Wire format one label at a time.
proof fn wire_labels_push(front: Seq<Seq<u8>>, label: Seq<u8>)
    ensures
        wire_labels(front.push(label)) == wire_labels(front).push(label.len() as u8) + label,
{
    assert(front.push(label).drop_last() =~= front);
}

/// A label that a dot has ended stays as it is.
proof fn ended_labels_stay(name: Seq<u8>, n: int, i: int)
    requires
        0 <= n <= name.len(),
        0 <= i < labels(name.take(n)).len() - 1,
    ensures
        i < labels(name).len() - 1,
        labels(name)[i] == labels(name.take(n))[i],
    decreases name.len(),
{
    if n == name.len() {
        assert(name.take(n) =~= name);
    } else {
        assert(name.drop_last().take(n) =~= name.take(n));
        ended_labels_stay(name.drop_last(), n, i);
    }
}

/// A minimal DNS query: all that matters is whether the server answers an A
/// lookup, and how fast.
pub fn encode_query(id: u16, name: &str) -> (r: Result<Vec<u8>, String>)
    ensures
        match r {
            Ok(msg) => labels_fit(query_labels(name.spec_bytes())) && msg@ == query_message(
                id,
                name.spec_bytes(),
            ),
            Err(e) => !labels_fit(query_labels(name.spec_bytes())) && e@ == "bad query name '"@
                + name@ + "'"@,
        },
{
    let bytes = name.as_bytes();
    let mut end: usize = bytes.len();
    assert(bytes@.take(end as int) =~= bytes@);
    while end > 0 && bytes[end - 1] == 46
        invariant
            end <= bytes@.len(),
            text::trimmed_end(bytes@.take(end as int), 46u8) == text::trimmed_end(bytes@, 46u8),
        decreases end,
    {
        assert(bytes@.take(end as int).drop_last() =~= bytes@.take(end - 1));
        end = end - 1;
    }
    let ghost whole = bytes@.take(end as int);
    let ghost all = query_labels(bytes@);
    assert(all == labels(whole));

    let mut msg: Vec<u8> = vec![
        (id / 256) as u8,
        (id % 256) as u8,
        // flags: RD; QDCOUNT=1, everything else 0
        0x01,
        0x00,
        0x00,
        0x01,
        0x00,
        0x00,
        0x00,
        0x00,
        0x00,
        0x00,
    ];
    let ghost header = query_header(id);
    let ghost mut front: Seq<Seq<u8>> = Seq::empty();
    let mut from: usize = 0;
    let mut at: usize = 0;
    proof {
        assert(bytes@.subrange(0, 0) =~= Seq::<u8>::empty());
        assert(labels(whole.take(0)) =~= front.push(Seq::empty()));
        assert(msg@ =~= header + wire_labels(front));
    }
    while at < end
        invariant
            from <= at <= end <= bytes@.len(),
            bytes@ == name.spec_bytes(),
            whole == bytes@.take(end as int),
            all == query_labels(bytes@),
            all == labels(whole),
            labels(whole.take(at as int)) == front.push(
                bytes@.subrange(from as int, at as int),
            ),
            labels_fit(front),
            header == query_header(id),
            msg@ == header + wire_labels(front),
        decreases end - at,
    {
        let ghost label = bytes@.subrange(from as int, at as int);
        assert(whole.take(at + 1).drop_last() =~= whole.take(at as int));
        if bytes[at] == 46 {
            if !push_label(&mut msg, bytes, from, at) {
                proof {
                    assert(labels(whole.take(at + 1)) == front.push(label).push(Seq::empty()));
                    ended_labels_stay(whole, at + 1, front.len() as int);
                    assert(all[front.len() as int] == label);
                }
                return Err("bad query name '".to_owned().concat(name).concat("'"));
            }
            proof {
                wire_labels_push(front, label);
                assert(msg@ =~= header + wire_labels(front.push(label)));
                front = front.push(label);
                assert(bytes@.subrange(at + 1, at + 1) =~= Seq::<u8>::empty());
            }
            from = at + 1;
        } else {
            proof {
                assert(bytes@.subrange(from as int, at + 1) =~= label.push(bytes@[at as int]));
                assert(front.push(label).drop_last() =~= front);
            }
        }
        at = at + 1;
    }
    let ghost label = bytes@.subrange(from as int, end as int);
    assert(whole.take(end as int) =~= whole);
    if !push_label(&mut msg, bytes, from, end) {
        assert(all[front.len() as int] == label);
        return Err("bad query name '".to_owned().concat(name).concat("'"));
    }
    proof {
        wire_labels_push(front, label);
        assert(msg@ =~= header + wire_labels(all));
        assert forall|i: int| 0 <= i < all.len() implies 1 <= (#[trigger] all[i]).len() <= 63 by {
            if i < front.len() {
                assert(all[i] == front[i]);
            }
        }
    }
    // The root label, QTYPE=A, QCLASS=IN.
    msg.push(0x00);
    msg.push(0x00);
    msg.push(0x01);
    msg.push(0x00);
    msg.push(0x01);
    assert(msg@ =~= query_message(id, bytes@));
    Ok(msg)
}

/// What something means to a waiting query.
#[derive(Clone, Debug)]
pub enum Reply {
    /// Not an answer to this query: keep waiting.
    Stray,
    /// The server answered.
    Answered,
    /// There is no answer to be had.
    Failed(String),
}

/// What a reply says.
pub enum ReplyModel {
    Stray,
    Answered,
    Failed(Seq<char>),
}

impl View for Reply {
    type V = ReplyModel;

    open spec fn view(&self) -> ReplyModel {
        match self {
            Reply::Stray => ReplyModel::Stray,
            Reply::Answered => ReplyModel::Answered,
            Reply::Failed(e) => ReplyModel::Failed(e@),
        }
    }
}

/// Whether a datagram answers the query: from the same server, long enough for
/// a header, with the query's id, and a response rather than an echo.
pub open spec fn is_answer(reply: Seq<u8>, from: IpAddr, server: IpAddr, id: u16) -> bool {
    &&& from == server
    &&& reply.len() >= 12
    &&& reply[0] as int * 256 + reply[1] == id
    &&& reply[2] >= 128
}

/// What a datagram means to a waiting query: nothing, unless it answers it; an
/// answer with an error code, or with no answers in it, is a failure.
pub open spec fn judgement(reply: Seq<u8>, from: IpAddr, server: IpAddr, id: u16) -> ReplyModel {
    if !is_answer(reply, from, server, id) {
        ReplyModel::Stray
    } else if reply[3] % 16 != 0 {
        ReplyModel::Failed("dns rcode "@ + text::decimal((reply[3] % 16) as nat))
    } else if reply[6] == 0 && reply[7] == 0 {
        ReplyModel::Failed("no answers"@)
    } else {
        ReplyModel::Answered
    }
}

/// Judges a datagram that arrived while a query waits.
pub fn judge_reply(reply: &[u8], from: IpAddr, server: IpAddr, id: u16) -> (r: Reply)
    ensures
        r@ == judgement(reply@, from, server, id),
{
    if from != server || reply.len() < 12 || reply[0] as u16 * 256 + reply[1] as u16 != id {
        return Reply::Stray;
    }
    if reply[2] < 128 {
        // QR=0: something echoed our query back. Keep waiting for the real
        // answer like any other stray datagram.
        return Reply::Stray;
    }
    let rcode: u8 = reply[3] % 16;
    if rcode != 0 {
        let mut e = "dns rcode ".to_owned();
        push_decimal(&mut e, rcode as u64);
        return Reply::Failed(e);
    }
    if reply[6] == 0 && reply[7] == 0 {
        return Reply::Failed("no answers".to_owned());
    }
    Reply::Answered
}

/// What happens to a waiting query.
#[derive(Clone, Debug)]
pub enum Heard {
    /// A datagram arrived.
    Datagram { bytes: Vec<u8>, from: IpAddr },
    /// The time is up.
    Deadline,
    /// Nothing can be received, for this reason.
    Broken(String),
}

/// What an event means to a waiting query.
pub open spec fn meaning(heard: Heard, server: IpAddr, id: u16) -> ReplyModel {
    match heard {
        Heard::Datagram { bytes, from } => judgement(bytes@, from, server, id),
        Heard::Deadline => ReplyModel::Failed("timeout"@),
        Heard::Broken(e) => ReplyModel::Failed("recv: "@ + e@),
    }
}

/// Judges an event while a query waits: whether to keep waiting, and with what
/// outcome if not.
pub fn judge_event(heard: &Heard, server: IpAddr, id: u16) -> (r: Reply)
    ensures
        r@ == meaning(*heard, server, id),
{
    match heard {
        Heard::Datagram { bytes, from } => judge_reply(bytes.as_slice(), *from, server, id),
        Heard::Deadline => Reply::Failed("timeout".to_owned()),
        Heard::Broken(e) => Reply::Failed("recv: ".to_owned().concat(e.as_str())),
    }
}

/// What comes of a query to which these events happen, in order: what the first
/// of them means that is not a stray datagram. `Stray` if there is none yet.
pub open spec fn outcome(events: Seq<Heard>, server: IpAddr, id: u16) -> ReplyModel
    decreases events.len(),
{
    if events.len() == 0 {
        ReplyModel::Stray
    } else if meaning(events[0], server, id) is Stray {
        outcome(events.drop_first(), server, id)
    } else {
        meaning(events[0], server, id)
    }
}

/// Stray datagrams change nothing: the first event that is not one decides,
/// whatever comes after it, and if that is the deadline the query has timed
/// out.
pub proof fn the_first_answer_decides(
    strays: Seq<Heard>,
    decisive: Heard,
    rest: Seq<Heard>,
    server: IpAddr,
    id: u16,
)
    requires
        forall|k: int|
            0 <= k < strays.len() ==> meaning(#[trigger] strays[k], server, id) is Stray,
        !(meaning(decisive, server, id) is Stray),
    ensures
        outcome(strays, server, id) is Stray,
        outcome(strays.push(decisive) + rest, server, id) == meaning(decisive, server, id),
        decisive is Deadline ==> outcome(strays.push(decisive) + rest, server, id)
            == ReplyModel::Failed("timeout"@),
    decreases strays.len(),
{
    let all = strays.push(decisive) + rest;
    if strays.len() == 0 {
        assert(all[0] == decisive);
    } else {
        assert(all[0] == strays[0]);
        assert(all.drop_first() =~= strays.drop_first().push(decisive) + rest);
        assert forall|k: int| 0 <= k < strays.drop_first().len() implies meaning(
            #[trigger] strays.drop_first()[k],
            server,
            id,
        ) is Stray by {
            assert(strays.drop_first()[k] == strays[k + 1]);
        }
        the_first_answer_decides(strays.drop_first(), decisive, rest, server, id);
    }
}

/// A query that is echoed back is no answer to itself.
pub proof fn an_echo_is_no_answer(id: u16, name: Seq<u8>, from: IpAddr, server: IpAddr)
    ensures
        !is_answer(query_message(id, name), from, server, id),
{
    assert(query_message(id, name)[2] == query_header(id)[2]);
}

/// Reads labels in wire format up to the root label.
pub open spec fn read_labels(wire: Seq<u8>) -> Seq<Seq<u8>>
    decreases wire.len(),
{
    if wire.len() == 0 || wire[0] == 0 || wire[0] >= wire.len() {
        Seq::empty()
    } else {
        let n = wire[0] as int;
        seq![wire.subrange(1, n + 1)] + read_labels(wire.skip(n + 1))
    }
}

/// A server that reads the question of a query finds the labels of its name.
pub proof fn query_names_its_labels(id: u16, name: Seq<u8>)
    requires
        labels_fit(query_labels(name)),
    ensures
        read_labels(query_message(id, name).skip(12)) == query_labels(name),
{
    let all = query_labels(name);
    read_labels_after(all, question_end());
    assert(query_message(id, name).skip(12) =~= wire_labels(all) + question_end());
    assert(read_labels(question_end()) =~= Seq::empty());
    assert(all + Seq::<Seq<u8>>::empty() =~= all);
}

/// Labels joined by dots.
pub open spec fn dotted(labels: Seq<Seq<u8>>) -> Seq<u8>
    decreases labels.len(),
{
    if labels.len() == 0 {
        Seq::empty()
    } else if labels.len() == 1 {
        labels[0]
    } else {
        dotted(labels.drop_last()).push(46) + labels.last()
    }
}

/// The labels of a name hold no dot, and joined by dots they are the name.
pub proof fn labels_rejoin(name: Seq<u8>)
    ensures
        labels(name).len() > 0,
        dotted(labels(name)) == name,
        forall|i: int, j: int|
            0 <= i < labels(name).len() && 0 <= j < labels(name)[i].len()
                ==> #[trigger] labels(name)[i][j] != 46,
    decreases name.len(),
{
    if name.len() == 0 {
        assert(labels(name) == seq![Seq::<u8>::empty()]);
        assert(dotted(labels(name)) =~= name);
    } else {
        let before = labels(name.drop_last());
        labels_rejoin(name.drop_last());
        let all = labels(name);
        if name.last() == 46 {
            assert(all.drop_last() =~= before);
            assert(dotted(all) =~= name);
        } else {
            let c = name.last();
            assert(all.drop_last() =~= before.drop_last());
            assert(dotted(all) =~= dotted(before).push(c));
            assert(dotted(all) =~= name);
            assert forall|i: int, j: int|
                0 <= i < all.len() && 0 <= j < all[i].len() implies #[trigger] all[i][j] != 46 by {
                if i < all.len() - 1 {
                    assert(all[i] == before[i]);
                    assert(before[i][j] != 46);
                } else if j < before.last().len() {
                    assert(before[before.len() - 1][j] != 46);
                }
            }
        }
    }
}

proof fn read_labels_after(labels: Seq<Seq<u8>>, rest: Seq<u8>)
    requires
        labels_fit(labels),
    ensures
        read_labels(wire_labels(labels) + rest) == labels + read_labels(rest),
    decreases labels.len(),
{
    if labels.len() == 0 {
        assert(wire_labels(labels) + rest =~= rest);
        assert(labels + read_labels(rest) =~= read_labels(rest));
    } else {
        let front = labels.drop_last();
        let last = labels.last();
        assert(labels_fit(front)) by {
            assert forall|i: int| 0 <= i < front.len() implies 1 <= (#[trigger] front[i]).len()
                <= 63 by {
                assert(front[i] == labels[i]);
            }
        }
        assert(1 <= labels[labels.len() - 1].len() <= 63);
        let tail = seq![last.len() as u8] + last + rest;
        assert(wire_labels(labels) + rest =~= wire_labels(front) + tail);
        read_labels_after(front, tail);
        assert(tail.subrange(1, last.len() as int + 1) =~= last);
        assert(tail.skip(last.len() as int + 1) =~= rest);
        assert(read_labels(tail) == seq![last] + read_labels(rest));
        assert(front + (seq![last] + read_labels(rest)) =~= labels + read_labels(rest));
    }
}

} // verus!
