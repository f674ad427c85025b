// Tests of the global traffic router: reading its configuration line,
// deriving ping URLs, answering route requests and listing regions.

use regional_ws::router::{derive_ping_url, parse_region_map, region_candidates, route, RegionMap};

// ── parse_region_map ────────────────────────────────────────────────────────

#[test]
fn parse_region_map_valid_two_regions() {
    let raw = "us-east=ws://localhost:3001/ws,eu-west=ws://localhost:3002/ws";
    let map = parse_region_map(raw);
    assert_eq!(map.len(), 2);
    assert_eq!(map.get("us-east").unwrap(), "ws://localhost:3001/ws");
    assert_eq!(map.get("eu-west").unwrap(), "ws://localhost:3002/ws");
}

#[test]
fn parse_region_map_single_region() {
    let raw = "us-east=ws://localhost:3001/ws";
    let map = parse_region_map(raw);
    assert_eq!(map.len(), 1);
    assert_eq!(map.get("us-east").unwrap(), "ws://localhost:3001/ws");
}

#[test]
fn parse_region_map_trims_whitespace() {
    let raw = "  us-east = ws://localhost:3001/ws , eu-west = ws://localhost:3002/ws ";
    let map = parse_region_map(raw);
    assert_eq!(map.len(), 2);
    assert!(map.contains_key("us-east"));
    assert!(map.contains_key("eu-west"));
}

#[test]
fn parse_region_map_skips_malformed_entries() {
    // "bad-entry" has no '=' so it should be skipped
    let raw = "us-east=ws://localhost:3001/ws,bad-entry,eu-west=ws://localhost:3002/ws";
    let map = parse_region_map(raw);
    assert_eq!(map.len(), 2, "malformed entry should be skipped");
}

#[test]
fn parse_region_map_empty_string_returns_empty_map() {
    let map = parse_region_map("");
    assert!(map.is_empty(), "empty input should produce an empty map");
}

#[test]
fn parse_region_map_url_with_equals_in_path_is_preserved() {
    // Only the first '=' separates the region from the URL.
    let raw = "us-east=ws://host:3001/ws";
    let map = parse_region_map(raw);
    assert_eq!(map.get("us-east").unwrap(), "ws://host:3001/ws");
}

#[test]
fn parse_region_map_keeps_equals_signs_after_the_first() {
    let map = parse_region_map("us-east=ws://host:3001/ws?a=b");
    assert_eq!(map.get("us-east").unwrap(), "ws://host:3001/ws?a=b");
}

#[test]
fn parse_region_map_later_entry_wins() {
    let map = parse_region_map("a=ws://one/ws,a=ws://two/ws");
    assert_eq!(map.len(), 1);
    assert_eq!(map.get("a").unwrap(), "ws://two/ws");
}

#[test]
fn parse_region_map_skips_entries_with_an_empty_side() {
    let map = parse_region_map("=ws://x/ws, a = ,b=ws://y/ws,,");
    assert_eq!(map.len(), 1);
    assert_eq!(map.get("b").unwrap(), "ws://y/ws");
    assert!(map.get("a").is_none());
}

#[test]
fn parse_region_map_trims_unicode_white_space() {
    // U+3000 IDEOGRAPHIC SPACE and a tab count as white space.
    let map = parse_region_map("\u{3000}us-east\t=\u{a0}ws://h/ws\u{2029}");
    assert_eq!(map.get("us-east").unwrap(), "ws://h/ws");
}

#[test]
fn region_map_keys_are_sorted() {
    let map = parse_region_map("us-east=ws://a/ws,ap-south=ws://b/ws,eu-west=ws://c/ws");
    assert_eq!(map.keys(), vec!["ap-south".to_string(), "eu-west".to_string(), "us-east".to_string()]);
}

#[test]
fn region_map_insert_overwrites() {
    let mut map = RegionMap::new();
    map.insert("b".to_string(), "1".to_string());
    map.insert("a".to_string(), "2".to_string());
    map.insert("b".to_string(), "3".to_string());
    assert_eq!(map.len(), 2);
    assert_eq!(map.get("b").unwrap(), "3");
    assert_eq!(map.keys(), vec!["a".to_string(), "b".to_string()]);
}

// ── derive_ping_url ─────────────────────────────────────────────────────────

#[test]
fn derive_ping_url_ws_with_ws_suffix() {
    assert_eq!(
        derive_ping_url("ws://localhost:3001/ws"),
        "http://localhost:3001/ping"
    );
}

#[test]
fn derive_ping_url_wss_with_ws_suffix() {
    assert_eq!(
        derive_ping_url("wss://example.com:443/ws"),
        "https://example.com:443/ping"
    );
}

#[test]
fn derive_ping_url_ws_without_ws_suffix() {
    // If the URL does not end with /ws, /ping is appended directly
    assert_eq!(
        derive_ping_url("ws://localhost:3001"),
        "http://localhost:3001/ping"
    );
}

#[test]
fn derive_ping_url_wss_without_ws_suffix() {
    assert_eq!(
        derive_ping_url("wss://example.com"),
        "https://example.com/ping"
    );
}

#[test]
fn derive_ping_url_replaces_only_the_first_scheme() {
    assert_eq!(
        derive_ping_url("ws://a/ws://b/ws"),
        "http://a/ws://b/ping"
    );
}

#[test]
fn derive_ping_url_without_scheme_appends_ping() {
    assert_eq!(derive_ping_url("localhost:3001"), "localhost:3001/ping");
}

// ── route and region listing ────────────────────────────────────────────────

#[test]
fn route_handler_returns_200_for_known_region() {
    let map = parse_region_map("us-east=ws://localhost:3001/ws");
    let resp = route(&map, "us-east").ok().expect("known region");
    assert_eq!(resp.region, "us-east");
    assert_eq!(resp.ws_url, "ws://localhost:3001/ws");
}

#[test]
fn route_handler_returns_400_for_unknown_region() {
    let map = parse_region_map("us-east=ws://localhost:3001/ws");
    let err = match route(&map, "ap-south") {
        Ok(_) => panic!("unknown region must be refused"),
        Err(e) => e,
    };
    assert!(
        err.error.contains("ap-south"),
        "Error message should mention the unknown region"
    );
    assert_eq!(err.error, "Unknown region 'ap-south'");
    assert!(err.available_regions.iter().any(|r| r == "us-east"));
}

#[test]
fn unknown_region_lists_available_regions_sorted() {
    let map = parse_region_map("us-east=ws://a/ws,eu-west=ws://b/ws");
    let err = match route(&map, "x") {
        Ok(_) => panic!("unknown region must be refused"),
        Err(e) => e,
    };
    assert_eq!(err.available_regions, vec!["eu-west".to_string(), "us-east".to_string()]);
}

#[test]
fn regions_handler_returns_sorted_candidates() {
    let map = parse_region_map("us-east=ws://localhost:3001/ws,eu-west=ws://localhost:3002/ws");
    let body = region_candidates(&map);
    assert_eq!(body.len(), 2);

    // Sorted alphabetically: eu-west first, then us-east
    assert_eq!(body[0].region, "eu-west");
    assert_eq!(body[1].region, "us-east");

    // ping_url derived
    assert_eq!(body[0].ping_url, "http://localhost:3002/ping");
    assert_eq!(body[1].ping_url, "http://localhost:3001/ping");

    // ws_url preserved
    assert_eq!(body[0].ws_url, "ws://localhost:3002/ws");
    assert_eq!(body[1].ws_url, "ws://localhost:3001/ws");
}
