use wifi_tui::app::{App, BgStatus, ListView, Modal, AUTO_REFRESH_TICKS};
use wifi_tui::event::{Key, KeyPress, Task, TaskResult};
use wifi_tui::nmcli::{friendly_error, ConnectionStatus, Network, SavedNetwork};

fn key(code: Key) -> KeyPress {
    KeyPress { code, ctrl: false }
}

fn net(ssid: &str, signal: u8, in_use: bool) -> Network {
    Network { ssid: ssid.to_string(), signal, security: String::new(), in_use }
}

fn saved(name: &str, active: bool) -> SavedNetwork {
    SavedNetwork { name: name.to_string(), active }
}

fn is_refresh(tasks: &[Task], device: &str) -> bool {
    tasks.len() == 3
        && matches!(&tasks[0], Task::Scan(d) if d == device)
        && matches!(&tasks[1], Task::RefreshStatus(d) if d == device)
        && matches!(&tasks[2], Task::RefreshSaved)
}

#[test]
fn first_tick_refreshes() {
    let mut app = App::new("wlan0".to_string());
    assert_eq!(app.ticks_since_scan, AUTO_REFRESH_TICKS);
    let tasks = app.handle_tick();
    assert!(is_refresh(&tasks, "wlan0"));
    assert_eq!(app.bg_status, BgStatus::Scanning);
    assert_eq!(app.ticks_since_scan, 0);
    assert_eq!(app.spinner_frame, 1);
}

#[test]
fn ticks_wait_for_interval_and_idle() {
    let mut app = App::with_refresh_ticks("wlan0".to_string(), 3);
    app.ticks_since_scan = 0;
    assert!(app.handle_tick().is_empty());
    assert!(app.handle_tick().is_empty());
    app.bg_status = BgStatus::Connecting;
    assert!(app.handle_tick().is_empty());
    assert_eq!(app.ticks_since_scan, 3);
    app.bg_status = BgStatus::Idle;
    assert!(is_refresh(&app.handle_tick(), "wlan0"));
    assert_eq!(app.spinner_frame, 0);
}

#[test]
fn password_needed_opens_password_input() {
    let mut app = App::new("wlan0".to_string());
    app.bg_status = BgStatus::Connecting;
    app.password = "stale".to_string();
    app.password_visible = true;
    let err = friendly_error("Error: Connection activation failed: Secrets were required, but not provided");
    app.handle_task_result(TaskResult::ConnectComplete(Err(err), "Cafe".to_string()));
    assert_eq!(app.modal, Some(Modal::PasswordInput));
    assert_eq!(app.password_target_ssid, "Cafe");
    assert_eq!(app.password, "");
    assert!(!app.password_visible);
    assert_eq!(app.bg_status, BgStatus::Idle);
}

#[test]
fn other_connect_error_shows_message() {
    let mut app = App::new("wlan0".to_string());
    app.bg_status = BgStatus::Connecting;
    app.handle_task_result(TaskResult::ConnectComplete(Err("boom".to_string()), "Cafe".to_string()));
    assert_eq!(app.modal, Some(Modal::Message("boom".to_string())));
    assert_eq!(app.bg_status, BgStatus::Idle);
}

#[test]
fn forget_key_ignored_while_busy() {
    let mut app = App::new("wlan0".to_string());
    app.view = ListView::SavedNetworks;
    app.saved = vec![saved("Home", false)];
    app.bg_status = BgStatus::Connecting;
    let tasks = app.handle_key(key(Key::Char('f')));
    assert!(tasks.is_empty());
    assert_eq!(app.modal, None);
    assert_eq!(app.bg_status, BgStatus::Connecting);
}

#[test]
fn forget_flow_when_idle() {
    let mut app = App::new("wlan0".to_string());
    app.view = ListView::SavedNetworks;
    app.saved = vec![saved("Home", false)];
    assert!(app.handle_key(key(Key::Char('F'))).is_empty());
    assert_eq!(app.modal, Some(Modal::ConfirmForget("Home".to_string())));
    let tasks = app.handle_key(key(Key::Char('y')));
    assert!(matches!(&tasks[..], [Task::Forget(n)] if n == "Home"));
    assert_eq!(app.bg_status, BgStatus::Forgetting);
    assert_eq!(app.modal, None);
    app.handle_task_result(TaskResult::ForgetComplete(Ok("Forgot network 'Home'.".to_string())));
    assert_eq!(app.bg_status, BgStatus::Idle);
    assert_eq!(app.ticks_since_scan, AUTO_REFRESH_TICKS);
}

#[test]
fn enter_connects_with_empty_password() {
    let mut app = App::new("wlan0".to_string());
    app.networks = vec![net("Home", 80, true), net("Cafe", 40, false)];
    app.net_index = 1;
    let tasks = app.handle_key(key(Key::Enter));
    assert!(matches!(&tasks[..], [Task::Connect(n, Some(p))] if n == "Cafe" && p.is_empty()));
    assert_eq!(app.bg_status, BgStatus::Connecting);
    assert!(app.handle_key(key(Key::Enter)).is_empty());
}

#[test]
fn enter_on_active_network_shows_message() {
    let mut app = App::new("wlan0".to_string());
    app.networks = vec![net("Home", 80, true)];
    assert!(app.handle_key(key(Key::Enter)).is_empty());
    assert_eq!(app.modal, Some(Modal::Message("Already connected to this network.".to_string())));
    assert_eq!(app.bg_status, BgStatus::Idle);
    app.handle_key(key(Key::Char('x')));
    assert_eq!(app.modal, None);
}

#[test]
fn saved_enter_reconnects_by_name() {
    let mut app = App::new("wlan0".to_string());
    app.view = ListView::SavedNetworks;
    app.saved = vec![saved("Home", false)];
    let tasks = app.handle_key(key(Key::Enter));
    assert!(matches!(&tasks[..], [Task::Connect(n, None)] if n == "Home"));
}

#[test]
fn password_entry_and_submit() {
    let mut app = App::new("wlan0".to_string());
    app.modal = Some(Modal::PasswordInput);
    app.password_target_ssid = "Cafe".to_string();
    for c in ['s', 'e', 'c', 'x'] {
        assert!(app.handle_key(key(Key::Char(c))).is_empty());
    }
    app.handle_key(key(Key::Backspace));
    app.handle_key(key(Key::Tab));
    assert!(app.password_visible);
    assert_eq!(app.password, "sec");
    let tasks = app.handle_key(key(Key::Enter));
    assert!(matches!(&tasks[..], [Task::Connect(n, Some(p))] if n == "Cafe" && p == "sec"));
    assert_eq!(app.modal, None);
    assert_eq!(app.bg_status, BgStatus::Connecting);
}

#[test]
fn escape_cancels_password_entry() {
    let mut app = App::new("wlan0".to_string());
    app.modal = Some(Modal::PasswordInput);
    app.password = "abc".to_string();
    app.handle_key(key(Key::Esc));
    assert_eq!(app.modal, None);
    assert_eq!(app.password, "");
}

#[test]
fn modal_swallows_view_keys() {
    let mut app = App::new("wlan0".to_string());
    app.modal = Some(Modal::PasswordInput);
    app.handle_key(key(Key::Char('q')));
    assert!(app.running);
    assert_eq!(app.password, "q");
    app.handle_key(KeyPress { code: Key::Char('c'), ctrl: true });
    assert!(!app.running);
}

#[test]
fn disconnect_needs_connection_and_confirmation() {
    let mut app = App::new("wlan0".to_string());
    app.handle_key(key(Key::Char('d')));
    assert_eq!(app.modal, None);
    app.status = ConnectionStatus { ssid: Some("Home".to_string()), signal: None, ip: None, speed: None };
    app.handle_key(key(Key::Char('d')));
    assert_eq!(app.modal, Some(Modal::ConfirmDisconnect));
    assert!(app.handle_key(key(Key::Char('n'))).is_empty());
    assert_eq!(app.modal, None);
    app.handle_key(key(Key::Char('D')));
    let tasks = app.handle_key(key(Key::Char('Y')));
    assert!(matches!(&tasks[..], [Task::Disconnect(d)] if d == "wlan0"));
    assert_eq!(app.bg_status, BgStatus::Disconnecting);
}

#[test]
fn global_keys() {
    let mut app = App::new("wlan0".to_string());
    app.handle_key(key(Key::Tab));
    assert_eq!(app.view, ListView::SavedNetworks);
    app.handle_key(key(Key::BackTab));
    assert_eq!(app.view, ListView::AvailableNetworks);
    assert!(is_refresh(&app.handle_key(key(Key::Char('r'))), "wlan0"));
    assert!(app.handle_key(key(Key::Char('R'))).is_empty());
    app.handle_key(key(Key::Char('Q')));
    assert!(!app.running);
}

#[test]
fn navigation_stays_in_bounds() {
    let mut app = App::new("wlan0".to_string());
    app.handle_key(key(Key::Down));
    assert_eq!(app.net_index, 0);
    app.networks = vec![net("A", 1, false), net("B", 2, false)];
    app.handle_key(key(Key::Char('j')));
    app.handle_key(key(Key::Down));
    assert_eq!(app.net_index, 1);
    app.handle_key(key(Key::Up));
    app.handle_key(key(Key::Char('k')));
    assert_eq!(app.net_index, 0);
}

#[test]
fn scan_result_clamps_selection() {
    let mut app = App::new("wlan0".to_string());
    app.networks = vec![net("A", 1, false), net("B", 2, false), net("C", 3, false)];
    app.net_index = 2;
    app.bg_status = BgStatus::Scanning;
    app.handle_task_result(TaskResult::ScanComplete(Ok(vec![net("A", 1, false)])));
    assert_eq!(app.net_index, 0);
    assert_eq!(app.bg_status, BgStatus::Idle);
    app.handle_task_result(TaskResult::ScanComplete(Ok(vec![])));
    assert_eq!(app.net_index, 0);
    app.saved = vec![saved("A", false), saved("B", false)];
    app.saved_index = 1;
    app.handle_task_result(TaskResult::SavedUpdate(Ok(vec![saved("A", true)])));
    assert_eq!(app.saved_index, 0);
    app.handle_task_result(TaskResult::SavedUpdate(Err("x".to_string())));
    assert_eq!(app.saved.len(), 1);
}

#[test]
fn scan_error_shows_message_and_idles() {
    let mut app = App::new("wlan0".to_string());
    app.bg_status = BgStatus::Scanning;
    app.handle_task_result(TaskResult::ScanComplete(Err("nope".to_string())));
    assert_eq!(app.bg_status, BgStatus::Idle);
    assert_eq!(app.modal, Some(Modal::Message("nope".to_string())));
}

#[test]
fn status_update_keeps_background_status() {
    let mut app = App::new("wlan0".to_string());
    app.bg_status = BgStatus::Scanning;
    let st = ConnectionStatus { ssid: Some("Home".to_string()), signal: Some(50), ip: None, speed: None };
    app.handle_task_result(TaskResult::StatusUpdate(st));
    assert_eq!(app.bg_status, BgStatus::Scanning);
    assert_eq!(app.status.ssid.as_deref(), Some("Home"));
}

#[test]
fn zero_interval_refreshes_on_every_idle_tick() {
    let mut app = App::with_refresh_ticks("wlan0".to_string(), 0);
    assert!(is_refresh(&app.handle_tick(), "wlan0"));
    app.bg_status = BgStatus::Idle;
    assert!(is_refresh(&app.handle_tick(), "wlan0"));
}
