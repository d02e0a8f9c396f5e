//! What holds of probing servers.

use vstd::prelude::*;

use crate::operations::item_views;
use crate::ping::{
    address_text, collected, latency_text, latest, numbered, sends_after, step_after_check,
    step_after_send, step_at_deadline, tcp_found, udp_found, ConnectOutcome, PingResult,
    ProbeResult, SendOutcome, UdpRound, UdpStep,
};
use crate::server::{Server, ServerView};
use crate::text::{decimal, decimal_reads_back, digits_value, u16_value};
use crate::text_laws::port_reads_back;

verus! {

/// A UDP answer is shown by its time, whatever the TCP probe found.
pub proof fn udp_answer_is_shown(tcp: ProbeResult, ms: u64)
    ensures
        latency_text(Some(PingResult { tcp, udp: ProbeResult::Answered(ms) })) == decimal(ms as nat),
        digits_value(latency_text(Some(PingResult { tcp, udp: ProbeResult::Answered(ms) }))) == ms,
{
    decimal_reads_back(ms as nat);
}

/// Where the UDP port is open without an answer, a TCP answer is shown by its
/// time, and nothing else that the TCP probe found is told apart.
pub proof fn open_port_shows_tcp(ms: u64, a: ProbeResult, b: ProbeResult)
    requires
        a !is Answered,
        b !is Answered,
    ensures
        digits_value(
            latency_text(
                Some(PingResult { tcp: ProbeResult::Answered(ms), udp: ProbeResult::Open }),
            ),
        ) == ms,
        latency_text(Some(PingResult { tcp: ProbeResult::Answered(ms), udp: ProbeResult::Open }))
            == latency_text(
            Some(PingResult { tcp: ProbeResult::Open, udp: ProbeResult::Answered(ms) }),
        ),
        latency_text(Some(PingResult { tcp: a, udp: ProbeResult::Open })) == latency_text(None),
        latency_text(Some(PingResult { tcp: b, udp: ProbeResult::Open })) == "—"@,
{
    decimal_reads_back(ms as nat);
}

/// A UDP probe that failed or timed out shows no time: a timeout shows the same
/// whatever the TCP probe found, and a failure shows it only if the TCP probe timed out.
pub proof fn failed_udp_shows_no_time(tcp: ProbeResult)
    ensures
        latency_text(Some(PingResult { tcp, udp: ProbeResult::Timeout })) == "тайм"@,
        tcp == ProbeResult::Timeout ==> latency_text(
            Some(PingResult { tcp, udp: ProbeResult::Error }),
        ) == "тайм"@,
        tcp != ProbeResult::Timeout ==> latency_text(
            Some(PingResult { tcp, udp: ProbeResult::Error }),
        ) == "нет"@,
{
}

/// The address that is probed is that of the server: its address, a colon, and a
/// port that reads back.
pub proof fn probed_address_reads_back(server: ServerView)
    ensures
        address_text(server).take(server.ip.len() as int) == server.ip,
        address_text(server)[server.ip.len() as int] == ':',
        u16_value(address_text(server).skip(server.ip.len() as int + 1)) == Some(server.port),
{
    reveal_strlit(":");
    port_reads_back(server.port as nat);
    assert(address_text(server).take(server.ip.len() as int) =~= server.ip);
    assert(address_text(server).skip(server.ip.len() as int + 1) =~= decimal(server.port as nat));
}

/// A TCP probe is answered exactly where it connected, after the time that it took,
/// and times out exactly where the time ran out.
pub proof fn tcp_answers_when_connected(outcome: ConnectOutcome, elapsed_ms: u64)
    ensures
        tcp_found(outcome, elapsed_ms) is Answered <==> outcome is Connected,
        outcome is Connected ==> tcp_found(outcome, elapsed_ms) == ProbeResult::Answered(elapsed_ms),
        tcp_found(outcome, elapsed_ms) is Timeout <==> outcome is TimedOut,
        tcp_found(outcome, elapsed_ms) is Error <==> outcome is Failed,
{
}

/// Only packets that were sent are counted, one by one.
pub proof fn sent_packets_are_counted(sends_ok: int, outcome: SendOutcome)
    ensures
        outcome is Sent ==> sends_after(sends_ok, outcome) == sends_ok + 1,
        outcome !is Sent ==> sends_after(sends_ok, outcome) == sends_ok,
{
}

/// Sending goes on only before the deadline; after it the probe is over.
pub proof fn deadline_ends_the_probe(sends_ok: int)
    requires
        sends_ok >= 0,
    ensures
        step_at_deadline(sends_ok, true) == UdpStep::Send,
        step_at_deadline(sends_ok, false) == UdpStep::Done(
            if sends_ok == 0 {
                ProbeResult::Timeout
            } else {
                ProbeResult::Open
            },
        ),
{
}

/// After a packet was sent, the socket is looked at; after that the probe pauses
/// exactly where it was the first packet and nothing was refused.
pub proof fn probe_pauses_once(sends_ok: int, refused: bool, sent_ms: u64, checked_ms: u64)
    requires
        sends_ok >= 1,
    ensures
        step_after_send(SendOutcome::Sent, sent_ms) == UdpStep::CheckError,
        step_after_check(sends_ok, refused, checked_ms) == UdpStep::Pause <==> sends_ok == 1
            && !refused,
        step_after_check(sends_ok, refused, checked_ms) != UdpStep::Send,
        step_after_check(sends_ok, refused, checked_ms) != UdpStep::CheckError,
{
}

/// Whether a round ends the UDP probe by what it met.
pub open spec fn decisive(round: UdpRound) -> bool {
    round.send != SendOutcome::Sent || round.refused
}

/// The first round that meets a refusal or a failure decides: a refusal is an
/// answer, after the time at which it was seen, and a failure an error. Where
/// neither of the first two rounds meets one, the port is open, and where there is
/// no round at all, the probe timed out.
pub proof fn first_decisive_round_decides(rounds: Seq<UdpRound>)
    ensures
        forall|k: int|
            0 <= k < 2 && k < rounds.len() && decisive(#[trigger] rounds[k]) && (k == 1
                ==> !decisive(rounds[0])) ==> udp_found(0, rounds) == match rounds[k].send {
                SendOutcome::Refused => ProbeResult::Answered(rounds[k].sent_ms),
                SendOutcome::Failed => ProbeResult::Error,
                SendOutcome::Sent => ProbeResult::Answered(rounds[k].checked_ms),
            },
        rounds.len() > 0 && (forall|k: int|
            0 <= k < 2 && k < rounds.len() ==> !decisive(#[trigger] rounds[k])) ==> udp_found(
            0,
            rounds,
        ) == ProbeResult::Open,
        rounds.len() == 0 ==> udp_found(0, rounds) == ProbeResult::Timeout,
{
    reveal_with_fuel(udp_found, 3);
    if rounds.len() > 0 {
        assert(decisive(rounds[0]) || !decisive(rounds[0]));
        if rounds.len() > 1 {
            assert(rounds.drop_first()[0] == rounds[1]);
            assert(decisive(rounds[1]) || !decisive(rounds[1]));
        }
    }
}

/// Of the results that were received for a server, the last one counts.
pub proof fn last_result_counts(received: Seq<(usize, PingResult)>, idx: usize) -> (k: int)
    ensures
        latest(received, idx as int) is None ==> forall|j: int|
            0 <= j < received.len() ==> (#[trigger] received[j]).0 != idx,
        latest(received, idx as int) matches Some(result) ==> {
            &&& 0 <= k < received.len()
            &&& received[k] == (idx, result)
            &&& forall|j: int| k < j < received.len() ==> (#[trigger] received[j]).0 != idx
        },
    decreases received.len(),
{
    if received.len() == 0 || received.last().0 == idx {
        received.len() - 1
    } else {
        let front = received.drop_last();
        let k = last_result_counts(front, idx);
        assert forall|j: int| 0 <= j < front.len() implies front[j] == #[trigger] received[j] by {}
        k
    }
}

/// The results that are collected are one for each server, by its index: the last
/// one that was received for it, or a failure of both probes.
pub proof fn every_server_has_a_result(count: nat, received: Seq<(usize, PingResult)>)
    ensures
        collected(count, received).len() == count,
        forall|i: int|
            0 <= i < count ==> match latest(received, i) {
                Some(result) => #[trigger] collected(count, received)[i] == result,
                None => collected(count, received)[i].tcp == ProbeResult::Error && collected(
                    count,
                    received,
                )[i].udp == ProbeResult::Error,
            },
{
}

/// The servers are numbered from nought in their order.
pub proof fn servers_are_numbered(servers: Seq<ServerView>)
    ensures
        numbered(servers).len() == servers.len(),
        forall|i: int|
            0 <= i < servers.len() ==> (#[trigger] numbered(servers)[i]).0 == i && numbered(
                servers,
            )[i].1 == servers[i],
{
}

/// The views of numbered servers tell the number and the server of each.
pub proof fn item_views_tell_all(items: Seq<(usize, Server)>)
    ensures
        item_views(items).len() == items.len(),
        forall|i: int|
            0 <= i < items.len() ==> (#[trigger] item_views(items)[i]).0 == items[i].0
                && item_views(items)[i].1 == items[i].1@,
{
}

} // verus!
