use wifi_tui::nmcli::{
    address_from_show, connect_args, connect_result, current_network, dedup_networks,
    disconnect_result, error_needs_password, find_wifi_device, forget_result, friendly_error,
    parse_network_list, parse_saved_list, saved_result, scan_result, sort_networks,
    speed_from_link, Network,
};

fn net(ssid: &str, signal: u8, in_use: bool) -> Network {
    Network { ssid: ssid.to_string(), signal, security: "WPA2".to_string(), in_use }
}

#[test]
fn dedup_prefers_in_use_row() {
    let rows = vec![net("Home", 40, false), net("Home", 70, true)];
    let out = dedup_networks(&rows);
    assert_eq!(out.len(), 1);
    assert_eq!(out[0].signal, 70);
    assert!(out[0].in_use);
    let rows = vec![net("Home", 90, false), net("Home", 40, true)];
    let out = dedup_networks(&rows);
    assert_eq!(out.len(), 1);
    assert_eq!(out[0].signal, 40);
    assert!(out[0].in_use);
}

#[test]
fn dedup_prefers_stronger_signal() {
    let rows = vec![net("Cafe", 30, false), net("Cafe", 60, false)];
    let out = dedup_networks(&rows);
    assert_eq!(out.len(), 1);
    assert_eq!(out[0].signal, 60);
}

#[test]
fn dedup_keeps_first_on_tie() {
    let mut a = net("Cafe", 50, false);
    a.security = "first".to_string();
    let rows = vec![a, net("Cafe", 50, false)];
    let out = dedup_networks(&rows);
    assert_eq!(out.len(), 1);
    assert_eq!(out[0].security, "first");
}

#[test]
fn sort_puts_in_use_first_then_signal() {
    let rows = vec![net("A", 20, false), net("B", 90, false), net("C", 10, true), net("D", 90, false)];
    let out = sort_networks(&rows);
    let names: Vec<&str> = out.iter().map(|n| n.ssid.as_str()).collect();
    assert_eq!(names, vec!["C", "B", "D", "A"]);
}

#[test]
fn network_listing_is_parsed_deduped_and_sorted() {
    let out = "  :Cafe:30:WPA2\n*:Home:55:WPA1 WPA2\n  :Cafe:60:WPA2\n  ::99:\n  :Open:+70:--\nshort:row\n";
    let nets = parse_network_list(out);
    let names: Vec<&str> = nets.iter().map(|n| n.ssid.as_str()).collect();
    assert_eq!(names, vec!["Home", "Open", "Cafe"]);
    assert!(nets[0].in_use);
    assert_eq!(nets[0].security, "WPA1 WPA2");
    assert_eq!(nets[1].signal, 70);
    assert_eq!(nets[1].security, "--");
    assert_eq!(nets[2].signal, 60);
}

#[test]
fn unreadable_signal_counts_as_zero() {
    let nets = parse_network_list(" :A:abc:\n :B:300:\n");
    assert_eq!(nets.len(), 2);
    assert_eq!(nets[0].signal, 0);
    assert_eq!(nets[1].signal, 0);
}

#[test]
fn scan_failure_is_classified() {
    let r = scan_result(false, "", "  Error: No suitable device found.\n");
    assert_eq!(r.unwrap_err(), "No WiFi adapter found. Make sure your WiFi hardware is enabled.");
    let r = scan_result(true, "*:X:5:\n", "");
    assert_eq!(r.unwrap().len(), 1);
}

#[test]
fn friendly_error_categories() {
    assert_eq!(friendly_error("Error: No network with SSID 'x' found."), "Network not found. It may be out of range or hidden.");
    assert_eq!(friendly_error("Secrets were required, but not provided"), "Password required. This network needs a password to connect.");
    assert_eq!(friendly_error("Error: No suitable device found"), "No WiFi adapter found. Make sure your WiFi hardware is enabled.");
    assert_eq!(friendly_error("NetworkManager is not running."), "NetworkManager is not running. Start it with: sudo systemctl start NetworkManager");
    assert_eq!(friendly_error("Error: Connection 'x' not found"), "Saved connection not found. It may have already been removed.");
    assert_eq!(friendly_error("Passwords or encryption keys are required to access"), "Incorrect password. Please try again.");
    assert_eq!(friendly_error("insufficient permission"), "Permission denied. You may need to run with appropriate privileges.");
    assert_eq!(friendly_error("not authorized to control"), "Permission denied. You may need to run with appropriate privileges.");
}

#[test]
fn friendly_error_order_and_fallbacks() {
    assert_eq!(friendly_error("No network with SSID; permission"), "Network not found. It may be out of range or hidden.");
    assert_eq!(friendly_error(""), "An unknown error occurred.");
    assert_eq!(friendly_error("something odd"), "something odd");
    assert_eq!(friendly_error("Error: Connection activation failed"), "Error: Connection activation failed");
}

#[test]
fn password_needed_predicate() {
    assert!(error_needs_password(&friendly_error("Secrets were required, but not provided")));
    assert!(error_needs_password(&friendly_error("Passwords or encryption keys are required")));
    assert!(!error_needs_password(&friendly_error("No network with SSID x")));
    assert!(!error_needs_password("password required"));
}

#[test]
fn wifi_device_detection() {
    assert_eq!(find_wifi_device("lo:loopback\nwlp3s0:wifi\nwlan1:wifi\n").unwrap(), "wlp3s0");
    assert_eq!(
        find_wifi_device("eth0:ethernet\n").unwrap_err(),
        "No WiFi adapter found. Make sure your WiFi hardware is enabled."
    );
}

#[test]
fn saved_profiles_keep_wireless_rows() {
    let out = "Home:802-11-wireless:yes\nWired:802-3-ethernet:no\nCafe\\:1:802-11-wireless:no\n";
    let saved = parse_saved_list(out);
    assert_eq!(saved.len(), 2);
    assert_eq!(saved[0].name, "Home");
    assert!(saved[0].active);
    assert_eq!(saved[1].name, "Cafe:1");
    assert!(!saved[1].active);
    assert_eq!(saved_result(false, "", "").unwrap_err(), "An unknown error occurred.");
}

#[test]
fn status_reads_in_use_row() {
    let st = current_network(" :Other:40\n*:Home:77\n");
    assert_eq!(st.ssid.as_deref(), Some("Home"));
    assert_eq!(st.signal, Some(77));
    let st = current_network(" :Other:40\n");
    assert!(st.ssid.is_none() && st.signal.is_none() && st.ip.is_none() && st.speed.is_none());
}

#[test]
fn address_drops_prefix_length() {
    assert_eq!(address_from_show("IP4.ADDRESS[1]:192.168.1.5/24\n").as_deref(), Some("192.168.1.5"));
    assert_eq!(address_from_show("GENERAL.STATE:100\n"), None);
}

#[test]
fn speed_takes_two_words() {
    let out = "Connected to aa:bb\n\ttx bitrate: 866.7 MBit/s VHT-MCS 9\n";
    assert_eq!(speed_from_link(out).as_deref(), Some("866.7 MBit/s"));
    assert_eq!(speed_from_link("Not connected.\n"), None);
}

#[test]
fn connect_argument_branches() {
    assert_eq!(connect_args("Net", Some("pw")), vec!["device", "wifi", "connect", "Net", "password", "pw"]);
    assert_eq!(connect_args("Net", Some("")), vec!["device", "wifi", "connect", "Net"]);
    assert_eq!(connect_args("Net", None), vec!["connection", "up", "Net"]);
}

#[test]
fn command_outcomes() {
    assert_eq!(connect_result("Home", true, "").unwrap(), "Connected to Home");
    assert_eq!(
        connect_result("Home", false, "Error: Secrets were required, but not provided\n").unwrap_err(),
        "Password required. This network needs a password to connect."
    );
    assert_eq!(disconnect_result(true, "").unwrap(), "Disconnected.");
    assert_eq!(forget_result("Home", true, "").unwrap(), "Forgot network 'Home'.");
    assert_eq!(forget_result("Home", false, "  odd failure \n").unwrap_err(), "odd failure");
}
