use wifi_tui::app::{App, BgStatus};
use wifi_tui::display::{bg_status_text, signal_bars, simplify_security, truncate_pad};

#[test]
fn truncate_pad_pads_and_cuts() {
    assert_eq!(truncate_pad("abc", 5), "abc  ");
    assert_eq!(truncate_pad("abcdef", 4), "abc…");
    assert_eq!(truncate_pad("abcd", 4), "abcd");
    assert_eq!(truncate_pad("", 0), "");
}

#[test]
fn security_labels() {
    assert_eq!(simplify_security("WPA2 WPA3"), "WPA3");
    assert_eq!(simplify_security("WPA2 802.1X"), "Enterprise");
    assert_eq!(simplify_security("WPA1 WPA2"), "WPA1 WPA2");
    assert_eq!(simplify_security(""), "");
}

#[test]
fn signal_bar_levels() {
    assert_eq!(signal_bars(100), "▂▄▆█");
    assert_eq!(signal_bars(79), "▂▄▆ ");
    assert_eq!(signal_bars(40), "▂▄  ");
    assert_eq!(signal_bars(20), "▂   ");
    assert_eq!(signal_bars(19), "    ");
    assert_eq!(signal_bars(200), "    ");
}

#[test]
fn activity_text_follows_status() {
    let mut app = App::new("wlan0".to_string());
    assert_eq!(bg_status_text(&app), None);
    app.bg_status = BgStatus::Scanning;
    assert_eq!(bg_status_text(&app).as_deref(), Some("◐ Scanning..."));
    app.spinner_frame = 3;
    app.bg_status = BgStatus::Forgetting;
    assert_eq!(bg_status_text(&app).as_deref(), Some("◒ Forgetting..."));
}
