use stalzone_server_blocker::commands::{cmd_apply, cmd_clear, cmd_list, cmd_ping, cmd_sync};
use stalzone_server_blocker::ping::{PingResult, ProbeResult};
use stalzone_server_blocker::server::Server;
use stalzone_server_blocker::systemd::{
    disable, enable, install_unit, status_label, sync_boot, systemctl_error, unit_content,
    UnitStep, SERVICE_NAME, UNIT_PATH,
};

fn servers() -> Vec<Server> {
    let server = |name: &str, ip: &str, pool: &str, region: &str| Server {
        name: name.to_string(),
        ip: ip.to_string(),
        port: 29450,
        pool: pool.to_string(),
        region: region.to_string(),
    };
    vec![
        server("MSK1-1", "1.1.1.1", "MSK1", "RU"),
        server("SRVMGR-ACCESSOR-OFT-RU-7A", "176.114.88.147", "CLOUD-RU-7", "UNK"),
        server("Ж", "3.3.3.3", "Ж", "UNK"),
    ]
}

fn names(all: &[&str]) -> Vec<String> {
    all.iter().map(|s| s.to_string()).collect()
}

#[test]
fn applies_the_addresses_of_blocked_names() {
    let plan = cmd_apply(&servers(), &names(&["Ж", "gone", "MSK1-1"]));
    assert_eq!(plan.ips, names(&["1.1.1.1", "3.3.3.3"]));
    assert_eq!(plan.report, "применено правил: 2");
    let plan = cmd_apply(&servers(), &names(&[]));
    assert_eq!(plan.ips, names(&[]));
    assert_eq!(plan.report, "применено правил: 0");
}

#[test]
fn lists_servers() {
    let blocked = names(&["Ж"]);
    assert_eq!(
        cmd_list(&servers(), &blocked, false),
        vec![
            "[ ] MSK1-1           1.1.1.1          MSK1/RU",
            "[ ] SRVMGR-ACCESSOR-OFT-RU-7A 176.114.88.147   CLOUD-RU-7/UNK",
            "[x] Ж                3.3.3.3          Ж/UNK",
        ]
    );
    assert_eq!(
        cmd_list(&servers(), &blocked, true),
        vec!["[x] Ж                3.3.3.3          Ж/UNK"]
    );
}

#[test]
fn listed_lines_are_those_of_the_applied_addresses() {
    let blocked = names(&["MSK1-1", "Ж"]);
    let lines = cmd_list(&servers(), &blocked, true);
    let plan = cmd_apply(&servers(), &blocked);
    assert_eq!(lines.len(), plan.ips.len());
    for (line, ip) in lines.iter().zip(&plan.ips) {
        assert!(line.starts_with("[x] "));
        assert!(line.contains(ip.as_str()));
    }
}

#[test]
fn reports_probes() {
    let ok = PingResult { tcp: ProbeResult::Error, udp: ProbeResult::Answered(15) };
    let late = PingResult { tcp: ProbeResult::Timeout, udp: ProbeResult::Timeout };
    assert_eq!(
        cmd_ping(&servers(), &vec![ok, late]),
        vec![
            "MSK1-1           1.1.1.1          15",
            "SRVMGR-ACCESSOR-OFT-RU-7A 176.114.88.147   тайм",
        ]
    );
    assert_eq!(cmd_ping(&Vec::new(), &vec![ok]).len(), 0);
}

#[test]
fn plans_a_synchronisation() {
    let plan = cmd_sync(Some("me"), "saved", true);
    assert_eq!((plan.login.as_str(), plan.print_report), ("me", false));
    let plan = cmd_sync(None, "saved", false);
    assert_eq!((plan.login.as_str(), plan.print_report), ("saved", true));
    assert_eq!(cmd_clear(), "блокировка снята");
}

fn systemctl(args: &[&str], required: bool) -> UnitStep {
    UnitStep::Systemctl { args: names(args), required }
}

#[test]
fn labels_the_unit() {
    assert_eq!(status_label(false, false), "не установлен");
    assert_eq!(status_label(false, true), "не установлен");
    assert_eq!(status_label(true, true), "включён");
    assert_eq!(status_label(true, false), "установлен, выкл.");
}

#[test]
fn writes_the_unit() {
    let content = "[Unit]\n\
         Description=Stalzone server blocker\n\
         After=network-online.target\n\
         Wants=network-online.target\n\
         \n\
         [Service]\n\
         Type=oneshot\n\
         RemainAfterExit=yes\n\
         ExecStart=/usr/bin/blocker apply\n\
         ExecStop=/usr/bin/blocker clear\n\
         \n\
         [Install]\n\
         WantedBy=multi-user.target\n";
    assert_eq!(unit_content("/usr/bin/blocker"), content);
    assert_eq!(
        install_unit("/usr/bin/blocker"),
        vec![
            UnitStep::EnsureRoot,
            UnitStep::WriteUnit { content: content.to_string() },
            systemctl(&["daemon-reload"], true),
        ]
    );
    assert_eq!(UNIT_PATH, "/etc/systemd/system/stalzone-server-blocker.service");
}

#[test]
fn switches_the_unit() {
    assert_eq!(
        enable(),
        vec![UnitStep::EnsureRoot, systemctl(&["enable", "--now", SERVICE_NAME], true)]
    );
    assert_eq!(
        disable(),
        vec![UnitStep::EnsureRoot, systemctl(&["disable", "--now", SERVICE_NAME], false)]
    );
    assert!(enable()[0].stops() && enable()[1].stops());
    assert!(disable()[0].stops() && !disable()[1].stops());
}

#[test]
fn brings_the_unit_in_line_with_the_setting() {
    let mut both = install_unit("/b");
    both.extend(enable());
    assert_eq!(sync_boot(true, false, "/b"), both);
    assert_eq!(sync_boot(true, true, "/b"), enable());
    assert_eq!(sync_boot(false, true, "/b"), disable());
    assert_eq!(sync_boot(false, false, "/b"), vec![]);
}

#[test]
fn reports_a_failed_systemctl() {
    assert_eq!(
        systemctl_error(&names(&["enable", "--now", "x"]), " no such unit\n"),
        "systemctl enable --now x завершился с ошибкой: no such unit"
    );
    assert_eq!(systemctl_error(&names(&[]), ""), "systemctl  завершился с ошибкой: ");
}
