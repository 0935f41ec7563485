use wifi_tui::terse::{parse_terse_line, split_lines};

#[test]
fn test_parse_terse_line_basic() {
    let fields = parse_terse_line("*:MyWifi:85:WPA2");
    assert_eq!(fields, vec!["*", "MyWifi", "85", "WPA2"]);
}

#[test]
fn test_parse_terse_line_escaped_colon() {
    let fields = parse_terse_line(r"*:My\:Wifi:85:WPA2");
    assert_eq!(fields, vec!["*", "My:Wifi", "85", "WPA2"]);
}

#[test]
fn test_parse_terse_line_empty_field() {
    let fields = parse_terse_line("*::85:WPA2");
    assert_eq!(fields, vec!["*", "", "85", "WPA2"]);
}

#[test]
fn empty_line_is_one_empty_field() {
    assert_eq!(parse_terse_line(""), vec![""]);
}

#[test]
fn separators_only_give_empty_fields() {
    assert_eq!(parse_terse_line("::"), vec!["", "", ""]);
}

#[test]
fn lone_backslash_is_kept() {
    assert_eq!(parse_terse_line(r"a\b:c\"), vec![r"a\b", r"c\"]);
}

#[test]
fn escaped_fields_round_trip() {
    let fields = vec!["aa:bb", "", ":", r"x\y", "z"];
    let line = fields
        .iter()
        .map(|f| f.replace(':', r"\:"))
        .collect::<Vec<String>>()
        .join(":");
    assert_eq!(parse_terse_line(&line), fields);
}

#[test]
fn lines_split_on_newlines() {
    let text: Vec<char> = "a\r\nb\n\nc\n".chars().collect();
    let lines: Vec<String> = split_lines(&text).iter().map(|l| l.iter().collect()).collect();
    assert_eq!(lines, vec!["a", "b", "", "c"]);
}

#[test]
fn empty_text_has_no_lines() {
    assert!(split_lines(&[]).is_empty());
}

#[test]
fn every_segment_is_kept() {
    assert_eq!(parse_terse_line(":"), vec!["", ""]);
    assert_eq!(parse_terse_line("a::b"), vec!["a", "", "b"]);
    assert_eq!(parse_terse_line(r"\\:x"), vec![r"\:x"]);
}
