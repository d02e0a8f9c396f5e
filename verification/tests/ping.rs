use stalzone_server_blocker::ping::{
    bind_address, collect_results, format_latency, format_ping, ping_items, probe_address,
    tcp_result, ConnectOutcome, PingResult, ProbeResult, SendOutcome, UdpProbe, UdpStep,
    CONCURRENCY, TCP_TIMEOUT_MS, UDP_PAUSE_MS, UDP_PROBE_MS,
};
use stalzone_server_blocker::server::Server;

fn server(name: &str, ip: &str, port: u16) -> Server {
    Server {
        name: name.to_string(),
        ip: ip.to_string(),
        port,
        pool: "TEST".to_string(),
        region: "UNK".to_string(),
    }
}

fn ping(tcp: ProbeResult, udp: ProbeResult) -> PingResult {
    PingResult { tcp, udp }
}

#[test]
fn formats_dual_ping() {
    let ping = PingResult {
        tcp: ProbeResult::Answered(47),
        udp: ProbeResult::Answered(15),
    };
    assert_eq!(format_ping(Some(ping)), "15");
}

#[test]
fn udp_open_falls_back_to_tcp() {
    let ping = PingResult {
        tcp: ProbeResult::Answered(42),
        udp: ProbeResult::Open,
    };
    assert_eq!(format_latency(Some(ping)), "42");
}

#[test]
fn udp_open_without_tcp() {
    let ping = PingResult {
        tcp: ProbeResult::Timeout,
        udp: ProbeResult::Open,
    };
    assert_eq!(format_latency(Some(ping)), "—");
}

#[test]
fn formats_failed_ping() {
    let ping = PingResult {
        tcp: ProbeResult::Timeout,
        udp: ProbeResult::Error,
    };
    assert_eq!(format_ping(Some(ping)), "тайм");
}

#[test]
fn formats_the_other_results() {
    assert_eq!(format_latency(None), "—");
    assert_eq!(format_ping(None), "—");
    let answered = ProbeResult::Answered(7);
    assert_eq!(format_latency(Some(ping(ProbeResult::Error, ProbeResult::Answered(0)))), "0");
    assert_eq!(
        format_latency(Some(ping(ProbeResult::Error, ProbeResult::Answered(u64::MAX)))),
        "18446744073709551615"
    );
    assert_eq!(format_latency(Some(ping(answered, ProbeResult::Timeout))), "тайм");
    assert_eq!(format_latency(Some(ping(answered, ProbeResult::Error))), "нет");
    assert_eq!(format_latency(Some(ping(ProbeResult::Error, ProbeResult::Error))), "нет");
    assert_eq!(format_latency(Some(ping(ProbeResult::Open, ProbeResult::Error))), "нет");
    assert_eq!(format_latency(Some(ping(ProbeResult::Error, ProbeResult::Open))), "—");
}

#[test]
fn addresses_of_probes() {
    assert_eq!(probe_address(&server("a", "192.0.2.1", 29450)), "192.0.2.1:29450");
    assert_eq!(probe_address(&server("a", "", 0)), ":0");
    assert_eq!(bind_address(true), "0.0.0.0:0");
    assert_eq!(bind_address(false), "[::]:0");
}

#[test]
fn limits_of_probes() {
    assert_eq!((TCP_TIMEOUT_MS, UDP_PROBE_MS, UDP_PAUSE_MS, CONCURRENCY), (2000, 400, 40, 10));
}

#[test]
fn results_of_the_tcp_probe() {
    assert_eq!(tcp_result(ConnectOutcome::Connected, 12), ProbeResult::Answered(12));
    assert_eq!(tcp_result(ConnectOutcome::Failed, 12), ProbeResult::Error);
    assert_eq!(tcp_result(ConnectOutcome::TimedOut, 12), ProbeResult::Timeout);
}

#[test]
fn udp_probe_sends_two_packets() {
    let mut probe = UdpProbe::new();
    assert_eq!(probe.at_deadline(true), UdpStep::Send);
    assert_eq!(probe.after_send(SendOutcome::Sent, 1), UdpStep::CheckError);
    assert_eq!(probe.after_check(false, 1), UdpStep::Pause);
    assert_eq!(probe.at_deadline(true), UdpStep::Send);
    assert_eq!(probe.after_send(SendOutcome::Sent, 41), UdpStep::CheckError);
    assert_eq!(probe.sends_ok, 2);
    assert_eq!(probe.after_check(false, 41), UdpStep::Done(ProbeResult::Open));
}

#[test]
fn udp_probe_ends_at_its_deadline() {
    let mut probe = UdpProbe::new();
    assert_eq!(probe.at_deadline(false), UdpStep::Done(ProbeResult::Timeout));
    assert_eq!(probe.after_send(SendOutcome::Sent, 1), UdpStep::CheckError);
    assert_eq!(probe.at_deadline(false), UdpStep::Done(ProbeResult::Open));
}

#[test]
fn udp_refusal_answers_and_failure_does_not() {
    let mut probe = UdpProbe::new();
    assert_eq!(
        probe.after_send(SendOutcome::Refused, 9),
        UdpStep::Done(ProbeResult::Answered(9))
    );
    assert_eq!(probe.after_send(SendOutcome::Failed, 9), UdpStep::Done(ProbeResult::Error));
    assert_eq!(probe.sends_ok, 0);
    assert_eq!(probe.after_send(SendOutcome::Sent, 9), UdpStep::CheckError);
    assert_eq!(probe.after_check(true, 10), UdpStep::Done(ProbeResult::Answered(10)));
}

#[test]
fn collects_results_by_index() {
    let first = ping(ProbeResult::Answered(1), ProbeResult::Open);
    let second = ping(ProbeResult::Timeout, ProbeResult::Timeout);
    let failed = ping(ProbeResult::Error, ProbeResult::Error);
    let received = vec![(2, first), (0, first), (7, first), (0, second)];
    assert_eq!(collect_results(3, &received), vec![second, failed, first]);
    assert_eq!(collect_results(0, &received), vec![]);
}

#[test]
fn numbers_the_servers_to_probe() {
    let servers = vec![server("a", "1.1.1.1", 1), server("b", "2.2.2.2", 2)];
    let items = ping_items(&servers);
    assert_eq!(items, vec![(0, servers[0].clone()), (1, servers[1].clone())]);
}
