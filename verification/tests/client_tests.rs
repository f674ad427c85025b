// Tests of the command-line client: arguments, URLs, typed lines and the
// lines it prints for server frames.

use regional_ws::client::{connect_url, frame_lines, outgoing_content, parse_args, route_url, ServerFrame};

fn args(list: &[&str]) -> Vec<String> {
    list.iter().map(|s| s.to_string()).collect()
}

#[test]
fn parse_args_reads_all_flags() {
    let a = parse_args(args(&["--user-id=alice", "--region=us-east", "--to=bob", "--router=http://r:1"]))
        .expect("valid arguments");
    assert_eq!(a.user_id, "alice");
    assert_eq!(a.region, "us-east");
    assert_eq!(a.to, "bob");
    assert_eq!(a.router, "http://r:1");
}

#[test]
fn parse_args_router_defaults() {
    let a = parse_args(args(&["--to=bob", "--region=eu-west", "--user-id=alice"])).expect("valid");
    assert_eq!(a.router, "http://localhost:8080");
}

#[test]
fn parse_args_last_flag_wins_and_others_are_ignored() {
    let a = parse_args(args(&["--user-id=a", "extra", "--user-id=b", "--region=r", "--to=t"]))
        .expect("valid");
    assert_eq!(a.user_id, "b");
}

#[test]
fn parse_args_reports_the_first_missing_flag() {
    assert_eq!(parse_args(args(&[])).unwrap_err(), "--user-id is required");
    assert_eq!(parse_args(args(&["--user-id=a"])).unwrap_err(), "--region is required");
    assert_eq!(
        parse_args(args(&["--user-id=a", "--region=r"])).unwrap_err(),
        "--to is required. Example: --to=bob"
    );
}

#[test]
fn parse_args_accepts_empty_values() {
    let a = parse_args(args(&["--user-id=", "--region=", "--to="])).expect("valid");
    assert_eq!(a.user_id, "");
}

#[test]
fn urls() {
    assert_eq!(route_url("http://localhost:8080", "us-east"), "http://localhost:8080/route?region=us-east");
    assert_eq!(connect_url("ws://localhost:3001/ws", "alice"), "ws://localhost:3001/ws?user_id=alice");
}

#[test]
fn typed_lines() {
    assert_eq!(outgoing_content("  hello world \n"), Some("hello world".to_string()));
    assert_eq!(outgoing_content(" \t "), None);
    assert_eq!(outgoing_content(""), None);
}

fn frame(kind: &str) -> ServerFrame {
    ServerFrame { kind: kind.to_string(), from: None, content: None, user_id: None, region: None }
}

#[test]
fn frame_lines_for_each_kind() {
    let mut connected = frame("connected");
    connected.user_id = Some("alice".to_string());
    connected.region = Some("us-east".to_string());
    assert_eq!(
        frame_lines(&Some(connected), "{}"),
        vec![
            "[connected] You are 'alice' in region 'us-east'".to_string(),
            "Type your messages below (press Ctrl+C to exit):\n".to_string(),
        ]
    );
    let mut message = frame("message");
    message.content = Some("hi".to_string());
    assert_eq!(frame_lines(&Some(message), "{}"), vec!["[unknown]: hi".to_string()]);
    assert_eq!(
        frame_lines(&Some(frame("warning")), "{\"type\":\"warning\"}"),
        vec!["[server] warning: {\"type\":\"warning\"}".to_string()]
    );
    assert_eq!(frame_lines(&None, "garbage"), vec!["[server] garbage".to_string()]);
}
