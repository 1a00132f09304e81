use tms::session::{
    deduplicate_sessions, generate_session_container, merge_session_maps, Session,
    SessionContainer, SessionType,
};
use tms::strmap::StrMap;

fn path_session(name: &str, path: &str) -> Session {
    Session::new(name.to_string(), path.to_string(), SessionType::Path)
}

#[test]
fn verify_session_name_deduplication() {
    let mut test_sessions = vec![
        path_session("test", "/search/path/to/proj1/test"),
        path_session("test", "/search/path/to/proj2/test"),
        path_session("test", "/other/path/to/projects/proj2/test"),
    ];

    let deduplicated = deduplicate_sessions(&mut test_sessions);

    assert_eq!(deduplicated[0].name, "projects/proj2/test");
    assert_eq!(deduplicated[1].name, "to/proj2/test");
    assert_eq!(deduplicated[2].name, "to/proj1/test");
}

#[test]
fn session_verify_session_name_deduplication() {
    let mut test_sessions = vec![
        path_session("test", "/search/path/to/proj1/test"),
        path_session("test", "/search/path/to/proj2/test"),
        path_session("test", "/other/path/to/projects/proj2/test"),
    ];

    let deduplicated = deduplicate_sessions(&mut test_sessions);

    assert_eq!(deduplicated[0].name, "projects/proj2/test");
    assert_eq!(deduplicated[1].name, "to/proj2/test");
    assert_eq!(deduplicated[2].name, "to/proj1/test");
}

#[test]
fn test_merge_session_maps_non_overlapping() {
    let mut map1: StrMap<Vec<Session>> = StrMap::new();
    let mut map2: StrMap<Vec<Session>> = StrMap::new();

    let session_a = path_session("Session A", "/path/to/a");
    let session_b = path_session("Session B", "/path/to/b");

    map1.push_value("key1".to_string(), session_a);
    map2.push_value("key2".to_string(), session_b);

    let merged = merge_session_maps(map1, map2);

    // Expect both keys to exist independently.
    assert_eq!(merged.len(), 2);
    assert!(merged.contains_key("key1"));
    assert!(merged.contains_key("key2"));
    assert_eq!(merged.get("key1").unwrap().len(), 1);
    assert_eq!(merged.get("key2").unwrap().len(), 1);
}

#[test]
fn test_merge_session_maps_overlapping() {
    let mut map1: StrMap<Vec<Session>> = StrMap::new();
    let mut map2: StrMap<Vec<Session>> = StrMap::new();

    let session_a = path_session("Session A", "/path/to/a");
    let session_b = path_session("Session B", "/path/to/b");

    // Both maps have the same key "shared_key"
    map1.push_value("shared_key".to_string(), session_a);
    map2.push_value("shared_key".to_string(), session_b);

    let merged = merge_session_maps(map1, map2);

    // Expect one key "shared_key" with both sessions, map1's session first.
    assert_eq!(merged.len(), 1);
    let sessions = merged.get("shared_key").unwrap();
    assert_eq!(sessions.len(), 2);
    assert_eq!(sessions[0].name, "Session A");
    assert_eq!(sessions[1].name, "Session B");
}

#[test]
fn test_merge_session_maps_empty() {
    let map1: StrMap<Vec<Session>> = StrMap::new();
    let map2: StrMap<Vec<Session>> = StrMap::new();

    let merged = merge_session_maps(map1, map2);

    // Expect an empty map.
    assert_eq!(merged.len(), 0);
}

#[test]
fn dedup_unique_labels() {
    // distinct full paths sharing a basename come out with distinct labels,
    // each a /-joined suffix of its own path
    let mut group = vec![
        path_session("proj", "/a/b/proj"),
        path_session("proj", "/a/c/proj"),
        path_session("proj", "/x/y/z/proj"),
    ];
    let labels: Vec<String> = deduplicate_sessions(&mut group)
        .into_iter()
        .map(|s| s.name)
        .collect();
    for i in 0..labels.len() {
        for j in 0..labels.len() {
            if i != j {
                assert_ne!(labels[i], labels[j]);
            }
        }
    }
}

#[test]
fn dedup_concrete_case() {
    // the group maximum probe depth is 1, so every label shows the last
    // two path components
    let mut group = vec![
        path_session("proj", "/a/b/proj"),
        path_session("proj", "/a/c/proj"),
        path_session("proj", "/x/y/z/proj"),
    ];
    let deduplicated = deduplicate_sessions(&mut group);
    assert_eq!(deduplicated[0].name, "z/proj");
    assert_eq!(deduplicated[1].name, "c/proj");
    assert_eq!(deduplicated[2].name, "b/proj");
    // paths and kinds survive the relabelling
    assert_eq!(deduplicated[0].path, "/x/y/z/proj");
    assert_eq!(deduplicated[2].path, "/a/b/proj");
}

#[test]
fn dedup_rerun_keeps_labels() {
    // running the resolver on an already-resolved pair changes nothing
    let mut group = vec![
        path_session("test", "/search/path/to/proj1/test"),
        path_session("test", "/search/path/to/proj2/test"),
    ];
    let first = deduplicate_sessions(&mut group);
    let mut again: Vec<Session> = first.iter().map(|s| s.clone()).collect();
    let second = deduplicate_sessions(&mut again);
    let mut first_names: Vec<String> = first.iter().map(|s| s.name.clone()).collect();
    let mut second_names: Vec<String> = second.iter().map(|s| s.name.clone()).collect();
    first_names.sort();
    second_names.sort();
    assert_eq!(first_names, second_names);
}

#[test]
fn catalog_from_groups() {
    let mut groups: StrMap<Vec<Session>> = StrMap::new();
    groups.push_value("alpha".to_string(), path_session("alpha", "/srv/alpha"));
    groups.push_value("proj".to_string(), path_session("proj", "/a/b/proj"));
    groups.push_value("proj".to_string(), path_session("proj", "/a/c/proj"));

    let catalog = generate_session_container(groups, false);

    assert!(catalog.find_session("alpha").is_some());
    assert!(catalog.find_session("b/proj").is_some());
    assert!(catalog.find_session("c/proj").is_some());
    assert!(catalog.find_session("proj").is_none());

    let names = catalog.list();
    assert_eq!(names, vec!["alpha".to_string(), "b/proj".to_string(), "c/proj".to_string()]);
}

#[test]
fn catalog_full_path_keys() {
    let mut groups: StrMap<Vec<Session>> = StrMap::new();
    groups.push_value("alpha".to_string(), path_session("alpha", "/srv/alpha"));

    let catalog = generate_session_container(groups, true);
    assert!(catalog.find_session("/srv/alpha").is_some());
    assert!(catalog.find_session("alpha").is_none());
}
