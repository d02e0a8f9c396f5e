//! Probing servers: what a probe found, how the UDP probe proceeds, and how a
//! result is shown.

use vstd::prelude::*;

use crate::operations::item_views;
use crate::server::{server_views, Server, ServerView};
use crate::text::{decimal, decimal_text};

verus! {

/// How long a TCP connection may take, in milliseconds.
pub const TCP_TIMEOUT_MS: u64 = 2000;

/// How long the UDP probe may take, in milliseconds.
pub const UDP_PROBE_MS: u64 = 400;

/// The pause between two UDP packets, in milliseconds.
pub const UDP_PAUSE_MS: u64 = 40;

/// How many servers are probed at the same time.
pub const CONCURRENCY: usize = 10;

/// What one probe of a server found.
#[derive(Debug, Clone, Copy, PartialEq, Eq, Structural)]
pub enum ProbeResult {
    /// The server answered after so many milliseconds.
    Answered(u64),
    /// The UDP port takes packets and does not answer, as a game port does.
    Open,
    Timeout,
    Error,
}

/// What both probes of a server found.
#[derive(Debug, Clone, Copy, PartialEq, Eq, Structural)]
pub struct PingResult {
    pub tcp: ProbeResult,
    pub udp: ProbeResult,
}

/// The text of a result: the UDP time, otherwise the TCP time if the UDP port is
/// open, otherwise what went wrong.
pub open spec fn latency_text(result: Option<PingResult>) -> Seq<char> {
    match result {
        None => "—"@,
        Some(ping) => match (ping.udp, ping.tcp) {
            (ProbeResult::Answered(ms), _) => decimal(ms as nat),
            (ProbeResult::Open, ProbeResult::Answered(ms)) => decimal(ms as nat),
            (ProbeResult::Open, _) => "—"@,
            (ProbeResult::Timeout, _) => "тайм"@,
            (ProbeResult::Error, ProbeResult::Timeout) => "тайм"@,
            (ProbeResult::Error, _) => "нет"@,
        },
    }
}

/// The text of a result: the UDP time, otherwise the TCP time if the UDP port is
/// open, otherwise what went wrong.
pub fn format_latency(result: Option<PingResult>) -> (r: String)
    ensures
        r@ == latency_text(result),
{
    match result {
        None => "—".to_owned(),
        Some(ping) => match ping.udp {
            ProbeResult::Answered(ms) => decimal_text(ms),
            ProbeResult::Open => match ping.tcp {
                ProbeResult::Answered(ms) => decimal_text(ms),
                _ => "—".to_owned(),
            },
            ProbeResult::Timeout => "тайм".to_owned(),
            ProbeResult::Error => match ping.tcp {
                ProbeResult::Timeout => "тайм".to_owned(),
                _ => "нет".to_owned(),
            },
        },
    }
}

/// The text of a result.
pub fn format_ping(result: Option<PingResult>) -> (r: String)
    ensures
        r@ == latency_text(result),
{
    format_latency(result)
}

/// The address of a server as text.
pub open spec fn address_text(server: ServerView) -> Seq<char> {
    server.ip + ":"@ + decimal(server.port as nat)
}

/// The address of a server as text.
pub fn probe_address(server: &Server) -> (r: String)
    ensures
        r@ == address_text(server@),
{
    let mut r = server.ip.clone();
    r.append(":");
    r.append(decimal_text(server.port as u64).as_str());
    r
}

/// The local address that a UDP probe is sent from.
pub fn bind_address(is_v4: bool) -> (r: &'static str)
    ensures
        r@ == (if is_v4 {
            "0.0.0.0:0"@
        } else {
            "[::]:0"@
        }),
{
    if is_v4 {
        "0.0.0.0:0"
    } else {
        "[::]:0"
    }
}

/// How an attempt to connect ended.
#[derive(Debug, Clone, Copy, PartialEq, Eq, Structural)]
pub enum ConnectOutcome {
    Connected,
    Failed,
    TimedOut,
}

/// What the TCP probe found, after so many milliseconds.
pub open spec fn tcp_found(outcome: ConnectOutcome, elapsed_ms: u64) -> ProbeResult {
    match outcome {
        ConnectOutcome::Connected => ProbeResult::Answered(elapsed_ms),
        ConnectOutcome::Failed => ProbeResult::Error,
        ConnectOutcome::TimedOut => ProbeResult::Timeout,
    }
}

/// What the TCP probe found.
pub fn tcp_result(outcome: ConnectOutcome, elapsed_ms: u64) -> (r: ProbeResult)
    ensures
        r == (match outcome {
            ConnectOutcome::Connected => ProbeResult::Answered(elapsed_ms),
            ConnectOutcome::Failed => ProbeResult::Error,
            ConnectOutcome::TimedOut => ProbeResult::Timeout,
        }),
        r == tcp_found(outcome, elapsed_ms),
{
    match outcome {
        ConnectOutcome::Connected => ProbeResult::Answered(elapsed_ms),
        ConnectOutcome::Failed => ProbeResult::Error,
        ConnectOutcome::TimedOut => ProbeResult::Timeout,
    }
}

/// How sending a packet ended.
#[derive(Debug, Clone, Copy, PartialEq, Eq, Structural)]
pub enum SendOutcome {
    Sent,
    /// The server refused the connection: it is there.
    Refused,
    Failed,
}

/// What the UDP probe does next.
#[derive(Debug, Clone, Copy, PartialEq, Eq, Structural)]
pub enum UdpStep {
    /// Send a packet.
    Send,
    /// See whether the socket holds an error.
    CheckError,
    /// Pause, then look at the deadline.
    Pause,
    Done(ProbeResult),
}

/// The UDP probe, by the number of packets that were sent.
#[derive(Debug, Clone, Copy, PartialEq, Eq, Structural)]
pub struct UdpProbe {
    pub sends_ok: u8,
}

/// What follows a look at the deadline.
pub open spec fn step_at_deadline(sends_ok: int, before_deadline: bool) -> UdpStep {
    if before_deadline {
        UdpStep::Send
    } else if sends_ok > 0 {
        UdpStep::Done(ProbeResult::Open)
    } else {
        UdpStep::Done(ProbeResult::Timeout)
    }
}

/// How many packets were sent after an attempt to send another.
pub open spec fn sends_after(sends_ok: int, outcome: SendOutcome) -> int {
    if outcome == SendOutcome::Sent {
        sends_ok + 1
    } else {
        sends_ok
    }
}

/// What follows an attempt to send.
pub open spec fn step_after_send(outcome: SendOutcome, elapsed_ms: u64) -> UdpStep {
    match outcome {
        SendOutcome::Sent => UdpStep::CheckError,
        SendOutcome::Refused => UdpStep::Done(ProbeResult::Answered(elapsed_ms)),
        SendOutcome::Failed => UdpStep::Done(ProbeResult::Error),
    }
}

/// What follows a look at the socket's error, after so many packets.
pub open spec fn step_after_check(sends_ok: int, refused: bool, elapsed_ms: u64) -> UdpStep {
    if refused {
        UdpStep::Done(ProbeResult::Answered(elapsed_ms))
    } else if sends_ok >= 2 {
        UdpStep::Done(ProbeResult::Open)
    } else {
        UdpStep::Pause
    }
}

impl UdpProbe {
    /// Begins a probe.
    pub fn new() -> (r: Self)
        ensures
            r.sends_ok == 0,
    {
        UdpProbe { sends_ok: 0 }
    }

    /// Goes on at the start and after each pause.
    pub fn at_deadline(&self, before_deadline: bool) -> (r: UdpStep)
        ensures
            r == step_at_deadline(self.sends_ok as int, before_deadline),
    {
        if before_deadline {
            UdpStep::Send
        } else if self.sends_ok > 0 {
            UdpStep::Done(ProbeResult::Open)
        } else {
            UdpStep::Done(ProbeResult::Timeout)
        }
    }

    /// Goes on after an attempt to send.
    pub fn after_send(&mut self, outcome: SendOutcome, elapsed_ms: u64) -> (r: UdpStep)
        requires
            old(self).sends_ok < u8::MAX,
        ensures
            r == step_after_send(outcome, elapsed_ms),
            final(self).sends_ok == old(self).sends_ok + (if outcome == SendOutcome::Sent {
                1int
            } else {
                0
            }),
            final(self).sends_ok == sends_after(old(self).sends_ok as int, outcome),
    {
        match outcome {
            SendOutcome::Sent => {
                self.sends_ok += 1;
                UdpStep::CheckError
            },
            SendOutcome::Refused => UdpStep::Done(ProbeResult::Answered(elapsed_ms)),
            SendOutcome::Failed => UdpStep::Done(ProbeResult::Error),
        }
    }

    /// Goes on after a look at the socket's error; `refused` says whether it is
    /// that the connection was refused.
    pub fn after_check(&self, refused: bool, elapsed_ms: u64) -> (r: UdpStep)
        ensures
            r == step_after_check(self.sends_ok as int, refused, elapsed_ms),
    {
        if refused {
            UdpStep::Done(ProbeResult::Answered(elapsed_ms))
        } else if self.sends_ok >= 2 {
            UdpStep::Done(ProbeResult::Open)
        } else {
            UdpStep::Pause
        }
    }
}

/// One round of the UDP probe: sending a packet and looking at the socket's error.
pub struct UdpRound {
    pub send: SendOutcome,
    pub sent_ms: u64,
    pub refused: bool,
    pub checked_ms: u64,
}

/// What the UDP probe finds after `sends_ok` packets, where the given rounds are
/// those that begin before the deadline.
pub open spec fn udp_found(sends_ok: int, rounds: Seq<UdpRound>) -> ProbeResult
    decreases rounds.len(),
{
    match step_at_deadline(sends_ok, rounds.len() > 0) {
        UdpStep::Done(result) => result,
        _ => {
            let round = rounds[0];
            match step_after_send(round.send, round.sent_ms) {
                UdpStep::Done(result) => result,
                _ => match step_after_check(
                    sends_after(sends_ok, round.send),
                    round.refused,
                    round.checked_ms,
                ) {
                    UdpStep::Done(result) => result,
                    _ => if rounds.len() > 0 {
                        udp_found(sends_after(sends_ok, round.send), rounds.drop_first())
                    } else {
                        ProbeResult::Error
                    },
                },
            }
        },
    }
}

/// The UDP probe sends at most two packets: rounds after the second do not matter.
pub proof fn udp_probe_ends_after_two(rounds: Seq<UdpRound>)
    requires
        rounds.len() >= 2,
    ensures
        udp_found(0, rounds) == udp_found(0, rounds.take(2)),
{
    reveal_with_fuel(udp_found, 3);
    let two = rounds.take(2);
    assert(two[0] == rounds[0]);
    assert(two.drop_first()[0] == rounds.drop_first()[0]);
}

/// The UDP probe times out exactly where the deadline passed before it sent
/// anything.
pub proof fn udp_timeout_means_nothing_sent(rounds: Seq<UdpRound>)
    ensures
        udp_found(0, rounds) == ProbeResult::Timeout <==> rounds.len() == 0,
{
    lemma_udp_no_timeout(1, rounds.drop_first());
}

proof fn lemma_udp_no_timeout(sends_ok: int, rounds: Seq<UdpRound>)
    requires
        sends_ok > 0,
    ensures
        udp_found(sends_ok, rounds) != ProbeResult::Timeout,
    decreases rounds.len(),
{
    if rounds.len() > 0 {
        lemma_udp_no_timeout(sends_ok + 1, rounds.drop_first());
    }
}

/// A server that refuses the first packet, at once or by the socket's error, has
/// answered.
pub proof fn udp_refusal_is_an_answer(rounds: Seq<UdpRound>)
    requires
        rounds.len() > 0,
    ensures
        rounds[0].send == SendOutcome::Refused ==> udp_found(0, rounds) == ProbeResult::Answered(
            rounds[0].sent_ms,
        ),
        rounds[0].send == SendOutcome::Sent && rounds[0].refused ==> udp_found(0, rounds)
            == ProbeResult::Answered(rounds[0].checked_ms),
{
}

/// The result for index `idx` that was received last.
pub open spec fn latest(received: Seq<(usize, PingResult)>, idx: int) -> Option<PingResult>
    decreases received.len(),
{
    if received.len() == 0 {
        None
    } else if received.last().0 == idx {
        Some(received.last().1)
    } else {
        latest(received.drop_last(), idx)
    }
}

/// The result of a server of which none was received.
pub open spec fn failed_ping() -> PingResult {
    PingResult { tcp: ProbeResult::Error, udp: ProbeResult::Error }
}

/// The results of `count` servers by index.
pub open spec fn collected(count: nat, received: Seq<(usize, PingResult)>) -> Seq<PingResult> {
    Seq::new(
        count,
        |i: int|
            match latest(received, i) {
                Some(result) => result,
                None => failed_ping(),
            },
    )
}

/// The results of `count` servers by index: the one received last for each, or a
/// failure. Results for other indices are dropped.
pub fn collect_results(count: usize, received: &Vec<(usize, PingResult)>) -> (r: Vec<PingResult>)
    ensures
        r@.len() == count,
        forall|i: int|
            0 <= i < count ==> #[trigger] r@[i] == (match latest(received@, i) {
                Some(result) => result,
                None => failed_ping(),
            }),
        r@ == collected(count as nat, received@),
{
    let mut r: Vec<PingResult> = Vec::new();
    let mut filled: usize = 0;
    while filled < count
        invariant
            filled <= count,
            r@.len() == filled,
            forall|i: int| 0 <= i < filled ==> #[trigger] r@[i] == failed_ping(),
        decreases count - filled,
    {
        r.push(PingResult { tcp: ProbeResult::Error, udp: ProbeResult::Error });
        filled += 1;
    }
    let mut k: usize = 0;
    assert(received@.take(0) == Seq::<(usize, PingResult)>::empty());
    while k < received.len()
        invariant
            k <= received@.len(),
            r@.len() == count,
            forall|i: int|
                0 <= i < count ==> #[trigger] r@[i] == (match latest(received@.take(k as int), i) {
                    Some(result) => result,
                    None => failed_ping(),
                }),
        decreases received.len() - k,
    {
        let (idx, result) = received[k];
        assert(received@.take(k + 1).drop_last() == received@.take(k as int));
        if idx < r.len() {
            r.set(idx, result);
        }
        k += 1;
    }
    assert(received@.take(k as int) == received@);
    r
}

/// The servers with their indices.
pub open spec fn numbered(servers: Seq<ServerView>) -> Seq<(int, ServerView)> {
    Seq::new(servers.len(), |i: int| (i, servers[i]))
}

/// The servers with their indices, as they are handed out to be probed.
pub fn ping_items(servers: &Vec<Server>) -> (r: Vec<(usize, Server)>)
    ensures
        r@.len() == servers@.len(),
        forall|i: int|
            0 <= i < servers@.len() ==> (#[trigger] r@[i]).0 == i && r@[i].1@ == servers@[i]@,
        item_views(r@) == numbered(server_views(servers@)),
{
    let mut r: Vec<(usize, Server)> = Vec::new();
    let mut i: usize = 0;
    while i < servers.len()
        invariant
            i <= servers@.len(),
            r@.len() == i,
            forall|k: int| 0 <= k < i ==> (#[trigger] r@[k]).0 == k && r@[k].1@ == servers@[k]@,
        decreases servers.len() - i,
    {
        r.push((i, servers[i].clone()));
        i += 1;
    }
    r
}

} // verus!
