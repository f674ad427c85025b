// Tests that the library's string operations agree with those of std on many
// inputs.

use regional_ws::router::{derive_ping_url, parse_region_map};
use regional_ws::text::trim_str;
use std::collections::HashMap;

#[test]
fn trim_agrees_with_std_on_every_early_code_point() {
    for n in 0u32..0x3100 {
        if let Some(c) = char::from_u32(n) {
            let s = format!("{c}a{c}");
            assert_eq!(trim_str(&s), s.trim(), "code point {n:#x}");
            let alone = c.to_string();
            assert_eq!(trim_str(&alone), alone.trim(), "code point {n:#x}");
        }
    }
}

fn ping_url_by_std(ws_url: &str) -> String {
    let http = if ws_url.starts_with("wss://") {
        ws_url.replacen("wss://", "https://", 1)
    } else {
        ws_url.replacen("ws://", "http://", 1)
    };
    match http.strip_suffix("/ws") {
        Some(base) => format!("{}/ping", base),
        None => format!("{}/ping", http),
    }
}

#[test]
fn derive_ping_url_agrees_with_std() {
    let cases = [
        "", "ws://", "wss://", "ws://x/ws", "wss://x/ws", "x ws://y", "xwss://y/ws", "/ws", "ws",
        "ws://a/ws/ws", "WS://upper/ws", "wss://ws://a/ws", "ws://é/ws", "http://already/ws",
    ];
    for c in cases.iter() {
        assert_eq!(derive_ping_url(c), ping_url_by_std(c), "input {c:?}");
    }
}

fn region_map_by_std(raw: &str) -> HashMap<String, String> {
    raw.split(',')
        .filter_map(|entry| {
            let mut parts = entry.splitn(2, '=');
            let region = parts.next()?.trim().to_string();
            let ws_url = parts.next()?.trim().to_string();
            if region.is_empty() || ws_url.is_empty() {
                return None;
            }
            Some((region, ws_url))
        })
        .collect()
}

#[test]
fn parse_region_map_agrees_with_std() {
    let cases = [
        "",
        ",",
        "=",
        "a=b",
        "a=b,a=c",
        " a = b = c , d=e ,",
        "a=,=b,c=d",
        "\u{2003}x\u{2003}=\u{85}y\u{85}",
        "k1=v1,k2=v2,k3=v3,k2=v4",
        "ünïcode=ws://ü/ws",
    ];
    for c in cases.iter() {
        let expected = region_map_by_std(c);
        let got = parse_region_map(c);
        assert_eq!(got.len(), expected.len(), "input {c:?}");
        for (k, v) in expected.iter() {
            assert_eq!(got.get(k).as_ref(), Some(v), "input {c:?}");
        }
        let mut keys: Vec<String> = expected.keys().cloned().collect();
        keys.sort();
        assert_eq!(got.keys(), keys, "input {c:?}");
    }
}
