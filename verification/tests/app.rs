use stalzone_server_blocker::app::{
    row_matches, App, InputMode, PingJob, Screen, SettingsRow, StatusMessage, TableState,
    SETTINGS_ROWS,
};
use stalzone_server_blocker::commands::cmd_apply;
use stalzone_server_blocker::operations::{Reply, Request, Step};
use stalzone_server_blocker::ping::{PingResult, ProbeResult};
use stalzone_server_blocker::server::{load_servers, Server};
use stalzone_server_blocker::settings::{Backend, BackendChoice, Settings, SyncReport};
use stalzone_server_blocker::systemd::{disable, enable, install_unit, sync_boot};

const LIST: &str = "MSK1-1 - 10.0.0.1\nMSK1-2 - 10.0.0.2\nЖук-1 - 10.0.0.3 @ПУЛ\nNYC-1 - 10.0.0.4\n";

fn servers() -> Vec<Server> {
    load_servers(None, LIST).unwrap()
}

fn settings(blocked: &[&str]) -> Settings {
    Settings {
        backend: BackendChoice { id: 1, label: "nft".to_string() },
        apply_on_boot: false,
        sync_on_startup: true,
        api_login: "login".to_string(),
        blocked: blocked.iter().map(|s| s.to_string()).collect(),
    }
}

fn app(blocked: &[&str]) -> App {
    App::new(settings(blocked), Backend { id: 1 }, None, servers(), None, (false, false))
}

fn marks(app: &App) -> Vec<bool> {
    app.entries.iter().map(|e| e.blocked).collect()
}

fn info(text: &str) -> Option<StatusMessage> {
    Some(StatusMessage::Info(text.to_string()))
}

fn failed(message: &str) -> Reply {
    Reply::Failed { message: message.to_string() }
}

fn texts(all: &[&str]) -> Vec<String> {
    all.iter().map(|s| s.to_string()).collect()
}

const OK: PingResult = PingResult { tcp: ProbeResult::Answered(5), udp: ProbeResult::Open };

#[test]
fn starts_with_the_marks_of_the_settings() {
    let app = app(&["MSK1-2", "gone"]);
    let names: Vec<&str> = app.entries.iter().map(|e| e.server.name.as_str()).collect();
    assert_eq!(names, vec!["MSK1-1", "MSK1-2", "NYC-1", "Жук-1"]);
    assert_eq!(marks(&app), vec![false, true, false, false]);
    assert_eq!(app.screen, Screen::Servers);
    assert_eq!(app.input_mode, InputMode::Normal);
    assert!(!app.blocking_active && !app.pinging);
    assert_eq!(app.status_message, None);
    assert_eq!(app.systemd_status, "не установлен");
    assert_eq!(app.table_state, TableState { offset: 0, selected: None });
    assert_eq!(app.ping_progress(), None);
}

#[test]
fn startup_shows_a_report_of_changes() {
    let report = |changed| Some(SyncReport { changed, message: "added".to_string() });
    let start = |sync_on_startup, report| {
        let settings = Settings { sync_on_startup, ..settings(&[]) };
        App::new(settings, Backend { id: 1 }, report, servers(), Some(true), (true, true))
    };
    assert_eq!(start(true, report(true)).status_message, info("added"));
    assert_eq!(start(true, report(false)).status_message, None);
    assert_eq!(start(false, report(true)).status_message, None);
    assert!(start(true, None).blocking_active);
    assert_eq!(start(true, None).systemd_status, "включён");
    assert_eq!(
        App::startup_sync(&settings(&[])),
        Some(Request::RunSync { login: "login".to_string() })
    );
    assert_eq!(App::startup_sync(&Settings { sync_on_startup: false, ..settings(&[]) }), None);
}

#[test]
fn filters_without_regard_to_case() {
    let mut app = app(&[]);
    assert_eq!(app.visible_indices(), vec![0, 1, 2, 3]);
    for (filter, rows) in [
        ("msk1", vec![0, 1]),
        ("MSK1-2", vec![1]),
        ("10.0.0.4", vec![2]),
        ("ЖУК", vec![3]),
        ("пул", vec![3]),
        ("unk", vec![3]),
        ("ru", vec![0, 1]),
        ("nothing", vec![]),
    ] {
        app.filter = filter.to_string();
        assert_eq!(app.visible_indices(), rows);
    }
}

#[test]
fn rows_match_by_any_field() {
    assert!(row_matches("b", "abc", "1", "p", "r"));
    assert!(row_matches("1", "abc", "1", "p", "r"));
    assert!(row_matches("p", "abc", "1", "p", "r"));
    assert!(row_matches("r", "abc", "1", "p", "r"));
    assert!(row_matches("", "", "", "", ""));
    assert!(!row_matches("ac", "abc", "1", "p", "r"));
    assert!(!row_matches("B", "abc", "1", "p", "r"));
}

#[test]
fn moves_the_selection_within_the_rows() {
    let mut app = app(&[]);
    app.move_selection(2);
    assert_eq!(app.list_index, 2);
    app.move_selection(i32::MAX);
    assert_eq!(app.list_index, 3);
    app.move_selection(i32::MIN);
    assert_eq!(app.list_index, 0);
    app.list_index = 3;
    app.filter = "msk".to_string();
    assert_eq!(app.selected_server_index(), None);
    app.move_selection(0);
    assert_eq!(app.selected_server_index(), Some(1));
    app.filter = "nothing".to_string();
    app.move_selection(1);
    assert_eq!(app.list_index, 0);
    assert_eq!(app.selected_server_index(), None);
}

#[test]
fn toggling_twice_restores_the_mark() {
    let mut app = app(&["NYC-1"]);
    app.filter = "nyc".to_string();
    app.status_message = info("x");
    app.toggle_selected();
    assert_eq!(marks(&app), vec![false; 4]);
    assert_eq!(app.status_message, None);
    app.toggle_selected();
    assert_eq!(marks(&app), vec![false, false, true, false]);
    app.filter = "nothing".to_string();
    app.status_message = info("x");
    app.toggle_selected();
    assert_eq!(marks(&app), vec![false, false, true, false]);
    assert_eq!(app.status_message, info("x"));
}

#[test]
fn a_pool_is_marked_alike() {
    let mut app = app(&["MSK1-2", "NYC-1"]);
    app.toggle_pool();
    assert_eq!(marks(&app), vec![true, true, true, false]);
    app.toggle_pool();
    assert_eq!(marks(&app), vec![false, false, true, false]);
    app.toggle_pool();
    assert_eq!(marks(&app), vec![true, true, true, false]);
    app.list_index = 9;
    app.toggle_pool();
    assert_eq!(marks(&app), vec![true, true, true, false]);
}

#[test]
fn scrolls_to_the_top() {
    let mut app = app(&[]);
    app.list_index = 2;
    app.table_state = TableState { offset: 7, selected: None };
    app.reset_list_scroll();
    assert_eq!(app.table_state, TableState { offset: 0, selected: Some(2) });
}

#[test]
fn opens_and_closes_the_settings() {
    let mut app = app(&["NYC-1"]);
    app.settings_index = 3;
    app.input_mode = InputMode::Filter;
    app.status_message = info("x");
    app.open_settings(true, false);
    assert_eq!(app.screen, Screen::Settings);
    assert_eq!(app.settings_index, 0);
    assert_eq!(app.input_mode, InputMode::Normal);
    assert_eq!(app.systemd_status, "установлен, выкл.");
    assert_eq!(app.status_message, None);
    app.status_message = info("x");
    app.close_settings();
    assert_eq!(app.screen, Screen::Servers);
    assert_eq!(app.status_message, None);
    assert_eq!(marks(&app), vec![false, false, true, false]);
}

#[test]
fn moves_within_the_settings() {
    let mut app = app(&[]);
    app.move_settings_selection(-1);
    assert_eq!(app.settings_index, 0);
    app.move_settings_selection(i32::MAX);
    assert_eq!(app.settings_index, SETTINGS_ROWS - 1);
    app.input_mode = InputMode::ApiLogin;
    app.move_settings_selection(-1);
    assert_eq!(app.settings_index, SETTINGS_ROWS - 1);
    assert_eq!(SettingsRow::from_index(0), Some(SettingsRow::Backend));
    assert_eq!(SettingsRow::from_index(1), Some(SettingsRow::Boot));
    assert_eq!(SettingsRow::from_index(2), Some(SettingsRow::Systemd));
    assert_eq!(SettingsRow::from_index(3), Some(SettingsRow::SyncOnStartup));
    assert_eq!(SettingsRow::from_index(4), Some(SettingsRow::ApiLogin));
    assert_eq!(SettingsRow::from_index(5), None);
}

#[test]
fn edits_the_login() {
    let mut app = app(&[]);
    app.start_api_login_edit();
    assert_eq!(app.api_login_draft, "login");
    assert_eq!(app.input_mode, InputMode::ApiLogin);
    assert_eq!(app.status_message, info("логин для address_list"));
    app.cancel_api_login_edit();
    assert_eq!(app.api_login_draft, "");
    assert_eq!(app.input_mode, InputMode::Normal);
    assert_eq!(app.settings, settings(&[]));

    app.start_api_login_edit();
    app.api_login_draft = " \t ".to_string();
    assert_eq!(
        app.save_api_login(),
        Step::Failed { message: "логин не может быть пустым".to_string() }
    );
    assert_eq!(app.settings.api_login, "login");
    app.api_login_draft = "  me \n".to_string();
    assert_eq!(app.save_api_login(), Step::Ask(Request::SaveSettings));
    assert_eq!(app.settings.api_login, "me");
    assert_eq!(app.input_mode, InputMode::ApiLogin);
    assert_eq!(app.resume(Reply::Done), Step::Finished);
    assert_eq!(app.input_mode, InputMode::Normal);
    assert_eq!(app.status_message, info("логин API: me"));
}

#[test]
fn shows_errors() {
    let mut app = app(&[]);
    app.show_error("broken".to_string());
    assert_eq!(app.status_message, Some(StatusMessage::Error("broken".to_string())));
    assert_eq!(app.status_message.clone(), app.status_message);
    assert_eq!(app.entries.clone(), app.entries);
}

#[test]
fn probes_the_rows_that_are_shown() {
    let mut app = app(&[]);
    app.filter = "msk".to_string();
    let all = servers();
    assert_eq!(
        app.start_ping(),
        Step::Probe { items: vec![(0, all[0].clone()), (1, all[1].clone())] }
    );
    assert!(app.pinging);
    assert_eq!(app.ping_progress(), Some((0, 2)));
    assert_eq!(app.status_message, info("пинг 0/2 (0%)"));
    assert_eq!(app.start_ping(), Step::Finished);
    app.poll_ping(&vec![]);
    assert_eq!(app.ping_progress(), Some((0, 2)));
    app.poll_ping(&vec![(1, OK)]);
    assert_eq!(app.status_message, info("пинг 1/2 (50%)"));
    assert_eq!(app.entries[1].ping, Some(OK));
    app.poll_ping(&vec![(9, OK)]);
    assert!(!app.pinging);
    assert_eq!(app.ping_progress(), None);
    assert_eq!(app.status_message, info("пинг проверен"));
    app.poll_ping(&vec![(0, OK)]);
    assert_eq!(app.entries[0].ping, None);
}

#[test]
fn no_rows_are_not_probed() {
    let mut app = app(&[]);
    app.filter = "nothing".to_string();
    assert_eq!(app.start_ping(), Step::Finished);
    assert!(!app.pinging);
}

#[test]
fn shows_the_progress_rounded_down() {
    let mut app = app(&[]);
    app.update_ping_status();
    assert_eq!(app.status_message, None);
    app.ping_job = Some(PingJob { total: 3, completed: 2 });
    app.update_ping_status();
    assert_eq!(app.status_message, info("пинг 2/3 (66%)"));
    app.ping_job = Some(PingJob { total: 0, completed: 0 });
    app.update_ping_status();
    assert_eq!(app.status_message, info("пинг 0/0 (0%)"));
}

#[test]
fn two_batches_of_results_are_one() {
    let late = PingResult { tcp: ProbeResult::Timeout, udp: ProbeResult::Timeout };
    let mut one = app(&[]);
    one.start_ping();
    one.poll_ping(&vec![(0, OK), (0, late), (3, OK)]);
    let mut two = app(&[]);
    two.start_ping();
    two.poll_ping(&vec![(0, OK)]);
    two.poll_ping(&vec![(0, late), (3, OK)]);
    assert_eq!(one, two);
    assert_eq!(one.entries[0].ping, Some(late));
}

#[test]
fn a_probe_sets_the_rules_first_where_servers_are_blocked() {
    let mut app = app(&["MSK1-1"]);
    app.blocking_active = true;
    assert_eq!(
        app.start_ping(),
        Step::Ask(Request::ApplyRules { backend: Backend { id: 1 }, ips: texts(&["10.0.0.1"]) })
    );
    assert_eq!(app.resume(Reply::Done), Step::Ask(Request::SaveSettings));
    match app.resume(Reply::Done) {
        Step::Probe { items } => assert_eq!(items.len(), 4),
        _ => panic!("a probe was asked for"),
    }
    assert!(app.pinging && app.blocking_active);

    app.pinging = false;
    app.ping_job = None;
    app.start_ping();
    assert_eq!(app.resume(failed("no")), Step::Failed { message: "no".to_string() });
    assert!(!app.pinging);
}

#[test]
fn reloading_keeps_marks_and_results_by_name() {
    let mut app = app(&["MSK1-2", "NYC-1"]);
    app.entries[1].ping = Some(OK);
    app.list_index = 3;
    let list = "NYC-1 - 9.9.9.9\nMSK1-2 - 8.8.8.8\nNEW-1 - 7.7.7.7";
    app.reload_servers(load_servers(None, list).unwrap());
    let names: Vec<&str> = app.entries.iter().map(|e| e.server.name.as_str()).collect();
    assert_eq!(names, vec!["MSK1-2", "NEW-1", "NYC-1"]);
    assert_eq!(marks(&app), vec![true, false, true]);
    assert_eq!(app.entries[0].ping, Some(OK));
    assert_eq!(app.entries[2].ping, None);
    assert_eq!(app.list_index, 0);
    assert_eq!(app.table_state, TableState { offset: 0, selected: Some(0) });
    app.list_index = 2;
    app.reload_servers(load_servers(None, list).unwrap());
    assert_eq!(app.list_index, 2);
}

#[test]
fn applies_and_comes_back() {
    let mut app = app(&[]);
    app.toggle_pool();
    assert_eq!(
        app.apply_blocking(),
        Step::Ask(Request::ApplyRules {
            backend: Backend { id: 1 },
            ips: texts(&["10.0.0.1", "10.0.0.2"]),
        })
    );
    assert_eq!(app.settings.blocked, texts(&[]));
    assert_eq!(app.resume(Reply::Done), Step::Ask(Request::SaveSettings));
    assert_eq!(app.settings.blocked, texts(&["MSK1-1", "MSK1-2"]));
    assert!(!app.blocking_active);
    assert_eq!(app.resume(Reply::Done), Step::Finished);
    assert!(app.blocking_active);
    assert_eq!(app.status_message, info("заблокировано серверов: 2"));

    assert_eq!(
        cmd_apply(&servers(), &app.settings.blocked).ips,
        texts(&["10.0.0.1", "10.0.0.2"])
    );
    let before = marks(&app);
    let again =
        App::new(app.settings, Backend { id: 1 }, None, servers(), Some(true), (false, false));
    assert_eq!(marks(&again), before);
}

#[test]
fn applying_no_marks_is_not_active() {
    let mut app = app(&[]);
    app.blocking_active = true;
    app.apply_blocking();
    app.resume(Reply::Done);
    app.resume(Reply::Done);
    assert!(!app.blocking_active);
    assert_eq!(app.status_message, info("заблокировано серверов: 0"));
}

#[test]
fn a_refused_block_changes_nothing() {
    let mut changed = app(&["NYC-1"]);
    changed.apply_blocking();
    assert_eq!(changed.resume(failed("no root")), Step::Failed { message: "no root".to_string() });
    assert_eq!(changed, app(&["NYC-1"]));
}

#[test]
fn clears_the_block_and_keeps_the_marks() {
    let mut app = app(&["NYC-1"]);
    app.blocking_active = true;
    assert_eq!(
        app.clear_blocking(),
        Step::Ask(Request::ClearRules { backend: Backend { id: 1 } })
    );
    assert_eq!(app.resume(Reply::Done), Step::Finished);
    assert!(!app.blocking_active);
    assert_eq!(app.status_message, info("блокировка снята"));
    assert_eq!(marks(&app), vec![false, false, true, false]);
    assert_eq!(app.settings.blocked, texts(&["NYC-1"]));
}

#[test]
fn synchronises_the_servers() {
    let mut app = app(&["NYC-1"]);
    let ask = Step::Ask(Request::RunSync { login: "login".to_string() });
    assert_eq!(app.sync_servers(), ask);
    let report = |changed| Reply::Report(SyncReport { changed, message: "report".to_string() });
    assert_eq!(app.resume(report(false)), Step::Finished);
    assert_eq!(app.status_message, info("report"));
    assert_eq!(app.entries.len(), 4);

    app.status_message = None;
    app.sync_servers();
    assert_eq!(app.resume(report(true)), Step::Ask(Request::ReadTunnels));
    let content = "NYC-1 - 1.2.3.4\n".to_string();
    assert_eq!(app.resume(Reply::Tunnels { content }), Step::Finished);
    assert_eq!(app.status_message, info("report"));
    assert_eq!(app.entries.len(), 1);
    assert_eq!(app.entries[0].server.ip, "1.2.3.4");
    assert!(app.entries[0].blocked);

    app.status_message = None;
    app.sync_servers();
    app.resume(report(true));
    assert_eq!(
        app.resume(Reply::Tunnels { content: String::new() }),
        Step::Failed { message: "в tunnels.txt не найдено серверов".to_string() }
    );
    assert_eq!(app.status_message, None);
    assert_eq!(app.entries.len(), 1);
}

#[test]
fn goes_through_the_backends() {
    let mut app = app(&[]);
    assert_eq!(app.cycle_backend(false), Step::Ask(Request::NeighbourBackend { forward: false }));
    let choice = BackendChoice { id: 2, label: "iptables".to_string() };
    assert_eq!(app.resume(Reply::Choice(choice)), Step::Ask(Request::SaveSettings));
    assert_eq!(app.settings.backend.id, 2);
    assert_eq!(app.backend, Backend { id: 1 });
    assert_eq!(app.resume(Reply::Done), Step::Ask(Request::ResolveBackend));
    let backend = Backend { id: 2 };
    assert_eq!(
        app.resume(Reply::Backend(backend)),
        Step::Ask(Request::ProbeFirewall { backend })
    );
    assert_eq!(app.backend, backend);
    assert_eq!(app.resume(Reply::Active(true)), Step::Finished);
    assert!(app.blocking_active);
    assert_eq!(app.status_message, info("бэкенд: iptables"));

    app.cycle_backend(true);
    app.resume(Reply::Choice(BackendChoice { id: 1, label: "nft".to_string() }));
    app.resume(Reply::Done);
    app.resume(Reply::Backend(Backend { id: 1 }));
    assert_eq!(app.resume(failed("cannot tell")), Step::Finished);
    assert!(!app.blocking_active);
    assert_eq!(app.status_message, info("бэкенд: nft"));
}

#[test]
fn toggles_the_block_at_boot() {
    let mut app = app(&[]);
    assert_eq!(app.toggle_apply_on_boot(), Step::Ask(Request::SaveSettings));
    assert!(app.settings.apply_on_boot);
    assert_eq!(app.resume(Reply::Done), Step::Ask(Request::LocateBinary));
    let path = "/b".to_string();
    assert_eq!(app.resume(Reply::Binary { path }), Step::Ask(Request::InspectUnit));
    assert_eq!(
        app.resume(Reply::Unit { installed: false, enabled: false }),
        Step::Ask(Request::ChangeUnit { steps: sync_boot(true, false, "/b") })
    );
    assert_eq!(app.resume(Reply::Done), Step::Ask(Request::InspectUnit));
    assert_eq!(app.resume(Reply::Unit { installed: true, enabled: true }), Step::Finished);
    assert_eq!(app.systemd_status, "включён");
    assert_eq!(app.status_message, info("автоприменение при загрузке включено"));

    app.toggle_apply_on_boot();
    app.resume(Reply::Done);
    app.resume(Reply::Binary { path: "/b".to_string() });
    assert_eq!(
        app.resume(Reply::Unit { installed: true, enabled: true }),
        Step::Ask(Request::ChangeUnit { steps: disable() })
    );
    app.resume(Reply::Done);
    app.resume(Reply::Unit { installed: true, enabled: false });
    assert_eq!(app.systemd_status, "установлен, выкл.");
    assert_eq!(app.status_message, info("автоприменение при загрузке выключено"));
}

#[test]
fn toggles_the_synchronisation_at_the_start() {
    let mut app = app(&[]);
    assert_eq!(app.toggle_sync_on_startup(), Step::Ask(Request::SaveSettings));
    assert_eq!(app.resume(Reply::Done), Step::Finished);
    assert!(!app.settings.sync_on_startup);
    assert_eq!(app.status_message, info("автосинк при старте выключен"));
    app.toggle_sync_on_startup();
    assert_eq!(app.resume(failed("disk")), Step::Failed { message: "disk".to_string() });
    assert!(app.settings.sync_on_startup);
    app.toggle_sync_on_startup();
    app.toggle_sync_on_startup();
    app.resume(Reply::Done);
    assert_eq!(app.status_message, info("автосинк при старте включён"));
}

#[test]
fn installs_the_unit() {
    let mut app = app(&[]);
    assert_eq!(app.install_systemd(), Step::Ask(Request::LocateBinary));
    assert_eq!(
        app.resume(Reply::Binary { path: "/b".to_string() }),
        Step::Ask(Request::ChangeUnit { steps: install_unit("/b") })
    );
    assert_eq!(app.resume(Reply::Done), Step::Ask(Request::InspectUnit));
    assert_eq!(app.resume(failed("never")), Step::Ignored);
    assert_eq!(app.resume(Reply::Unit { installed: true, enabled: false }), Step::Finished);
    assert_eq!(app.status_message, info("unit systemd установлен"));

    app.settings.apply_on_boot = true;
    app.install_systemd();
    let mut steps = install_unit("/b");
    steps.extend(enable());
    assert_eq!(
        app.resume(Reply::Binary { path: "/b".to_string() }),
        Step::Ask(Request::ChangeUnit { steps })
    );
}

#[test]
fn acts_on_the_row_of_the_settings() {
    let mut app = app(&[]);
    for (row, step) in [
        (0, Step::Ask(Request::NeighbourBackend { forward: true })),
        (1, Step::Ask(Request::SaveSettings)),
        (2, Step::Ask(Request::LocateBinary)),
        (3, Step::Ask(Request::SaveSettings)),
        (4, Step::Finished),
        (5, Step::Finished),
    ] {
        app.settings_index = row;
        assert_eq!(app.activate_settings_row(), step);
    }
    assert!(app.settings.apply_on_boot);
    assert!(!app.settings.sync_on_startup);
    assert_eq!(app.input_mode, InputMode::ApiLogin);
}

#[test]
fn ignores_a_reply_that_answers_nothing() {
    let mut changed = app(&["NYC-1"]);
    assert_eq!(changed.resume(Reply::Done), Step::Ignored);
    assert_eq!(changed, app(&["NYC-1"]));
    changed.clear_blocking();
    assert_eq!(changed.resume(Reply::Active(true)), Step::Ignored);
    assert_eq!(changed.resume(Reply::Done), Step::Finished);
}
