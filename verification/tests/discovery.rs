use tms::configs::SearchDirectory;
use tms::picker::{InputPosition, Picker};
use tms::repos::{DiscoveryEngine, ProbeOutcome};
use tms::session::{generate_session_container, SessionContainer};
use tms::TmsError;

fn root(path: &str) -> SearchDirectory {
    SearchDirectory::new(path.to_string(), 10)
}

#[test]
fn exclusion_containment() {
    // a root whose full path contains an exclusion literal is never handed
    // out for probing, so it is never opened and never descended into
    let roots = vec![root("/home/u/projects"), root("/home/u/node_modules/x")];
    let excluded = vec!["node_modules".to_string()];
    let mut engine = DiscoveryEngine::new(roots, Some(&excluded)).unwrap();

    let first = engine.next_path().unwrap();
    assert_eq!(first.path, "/home/u/projects");
    assert!(engine.next_path().is_none());
}

#[test]
fn excluded_children_are_not_probed() {
    let roots = vec![root("/srv")];
    let excluded = vec!["skipme".to_string()];
    let mut engine = DiscoveryEngine::new(roots, Some(&excluded)).unwrap();

    let srv = engine.next_path().unwrap();
    engine
        .on_probe(
            srv,
            ProbeOutcome::Directory {
                children: vec!["/srv/skipme".to_string(), "/srv/keep".to_string()],
            },
        )
        .unwrap();
    let next = engine.next_path().unwrap();
    assert_eq!(next.path, "/srv/keep");
    assert!(engine.next_path().is_none());
}

#[test]
fn depth_zero_never_descends() {
    let roots = vec![SearchDirectory::new("/flat".to_string(), 0)];
    let mut engine = DiscoveryEngine::new(roots, None).unwrap();
    let flat = engine.next_path().unwrap();
    engine
        .on_probe(
            flat,
            ProbeOutcome::Directory { children: vec!["/flat/child".to_string()] },
        )
        .unwrap();
    assert!(engine.next_path().is_none());
}

#[test]
fn worktree_checkouts_are_not_candidates() {
    let roots = vec![root("/srv/wt")];
    let mut engine = DiscoveryEngine::new(roots, None).unwrap();
    let wt = engine.next_path().unwrap();
    engine.on_probe(wt, ProbeOutcome::Repository { worktree: true }).unwrap();
    let groups = engine.finish();
    assert_eq!(groups.len(), 0);
}

#[test]
fn probe_errors() {
    let roots = vec![root("/a"), root("/b")];
    let mut engine = DiscoveryEngine::new(roots, None).unwrap();
    let a = engine.next_path().unwrap();
    // permission problems skip the subtree without failing
    assert!(engine.on_probe(a, ProbeOutcome::PermissionDenied).is_ok());
    let b = engine.next_path().unwrap();
    // any other read failure is fatal
    assert_eq!(engine.on_probe(b, ProbeOutcome::ReadError), Err(TmsError::IoError));
}

#[test]
fn repository_without_basename_is_rejected() {
    let roots = vec![root("///")];
    let mut engine = DiscoveryEngine::new(roots, None).unwrap();
    let d = engine.next_path().unwrap();
    let r = engine.on_probe(d, ProbeOutcome::Repository { worktree: false });
    assert_eq!(r, Err(TmsError::GitError));
}

#[test]
fn end_to_end_discovery_dedup_filter() {
    // three repositories sharing the basename `proj` are discovered,
    // relabelled by the resolver, and narrowed down in the picker
    let roots = vec![root("proj"), root("work/proj"), root("other/deep/proj")];
    let mut engine = DiscoveryEngine::new(roots, None).unwrap();
    while let Some(dir) = engine.next_path() {
        engine.on_probe(dir, ProbeOutcome::Repository { worktree: false }).unwrap();
    }
    let groups = engine.finish();
    assert_eq!(groups.len(), 1);
    assert_eq!(groups.get("proj").unwrap().len(), 3);

    let catalog = generate_session_container(groups, false);
    let labels = catalog.list();
    assert_eq!(
        labels,
        vec!["deep/proj".to_string(), "proj".to_string(), "work/proj".to_string()]
    );

    let mut picker = Picker::new(&labels, None, None, InputPosition::Bottom);
    picker.update_filter('w');
    picker.update_filter('o');
    for _ in 0..200 {
        if !picker.tick(10) {
            break;
        }
    }
    picker.update_selection();
    let selected = picker.get_selected().expect("one entry should match");
    assert_eq!(selected, "work/proj");
}

#[test]
fn submodule_names_follow_parent() {
    assert_eq!(tms::repos::submodule_session_name("app", "vendor"), "app>vendor");
}
