// Tests of the two maps that a regional server keeps: connections
// (user id -> connection number) and presence (user id -> region id).

use regional_ws::maps::{ConnectionMap, PresenceMap};

#[test]
fn connection_map_insert_and_retrieve() {
    let mut map = ConnectionMap::new();
    map.insert("alice".to_string(), 1);
    assert!(map.contains_key("alice"), "alice should be in the connections map");
    assert!(!map.contains_key("bob"), "bob was never inserted");
    assert_eq!(map.get("alice"), Some(1));
}

#[test]
fn connection_map_remove_cleans_up_entry() {
    let mut map = ConnectionMap::new();
    map.insert("alice".to_string(), 1);
    map.remove("alice");
    assert!(!map.contains_key("alice"), "alice should be removed");
}

#[test]
fn connection_map_reconnect_replaces_connection() {
    let mut map = ConnectionMap::new();
    map.insert("alice".to_string(), 1);
    map.insert("alice".to_string(), 2);
    assert_eq!(map.get("alice"), Some(2));
}

#[test]
fn presence_map_insert_and_lookup() {
    let mut map = PresenceMap::new();
    map.insert("alice".to_string(), "us-east".to_string());
    let region = map.get("alice");
    assert_eq!(region, Some("us-east".to_string()));
}

#[test]
fn presence_map_remove_user() {
    let mut map = PresenceMap::new();
    map.insert("bob".to_string(), "eu-west".to_string());
    map.remove("bob");
    assert!(!map.contains_key("bob"), "bob should be removed from presence");
}

#[test]
fn presence_map_overwrite_updates_region() {
    let mut map = PresenceMap::new();
    map.insert("alice".to_string(), "us-east".to_string());
    // Client reconnects to a different region
    map.insert("alice".to_string(), "eu-west".to_string());
    let region = map.get("alice");
    assert_eq!(region, Some("eu-west".to_string()), "Presence should update to new region");
}

#[test]
fn presence_map_returns_none_for_missing_user() {
    let map = PresenceMap::new();
    assert!(map.get("nonexistent").is_none(), "Missing user should return None");
}

#[test]
fn multiple_users_in_presence_map() {
    let mut map = PresenceMap::new();
    map.insert("alice".to_string(), "us-east".to_string());
    map.insert("bob".to_string(), "eu-west".to_string());
    map.insert("carol".to_string(), "ap-south".to_string());

    assert_eq!(map.len(), 3);
    assert_eq!(map.get("alice"), Some("us-east".into()));
    assert_eq!(map.get("bob"), Some("eu-west".into()));
    assert_eq!(map.get("carol"), Some("ap-south".into()));
}
