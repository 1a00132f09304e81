use tms::cli::{kill_target_session, open_session, repo_name_from_url};
use tms::configs::{Config, ConfigError, PickerColorConfig, SearchDirectory};
use tms::marks::{
    first_free_index, marks_command, parse_usize, path_to_session, MarksAction, MarksCommand,
    MarksDeleteCommand, MarksSubCommand,
};
use tms::session::SessionMap;
use tms::strmap::StrMap;
use tms::strutil::{sanitize_session_name, sort_strings, u32_to_string};
use tms::TmsError;

#[test]
fn search_dirs_merges_and_rejects_empty() {
    let mut config = Config::empty();
    assert_eq!(config.search_dirs(), Err(ConfigError::NoDefaultSearchPath));

    config.search_dirs = Some(vec![SearchDirectory::new("/srv".to_string(), 3)]);
    config.search_paths = Some(vec!["/legacy".to_string()]);
    let dirs = config.search_dirs().unwrap();
    assert_eq!(dirs.len(), 2);
    assert_eq!(dirs[0].path, "/srv");
    assert_eq!(dirs[0].depth, 3);
    assert_eq!(dirs[1].path, "/legacy");
    assert_eq!(dirs[1].depth, 10);
}

#[test]
fn bookmarks_add_once_delete_first() {
    let mut config = Config::empty();
    config.add_bookmark("/a".to_string());
    config.add_bookmark("/b".to_string());
    config.add_bookmark("/a".to_string());
    assert_eq!(config.bookmarks.as_ref().unwrap().len(), 2);
    config.delete_bookmark("/a".to_string());
    assert_eq!(config.bookmarks.as_ref().unwrap(), &vec!["/b".to_string()]);
    config.delete_bookmark("/missing".to_string());
    assert_eq!(config.bookmarks.as_ref().unwrap().len(), 1);
}

#[test]
fn marks_map_roundtrip() {
    let mut config = Config::empty();
    config.add_mark("/proj".to_string(), "0".to_string());
    config.add_mark("/other".to_string(), "1".to_string());
    config.add_mark("/replaced".to_string(), "0".to_string());
    let marks = config.marks.as_ref().unwrap();
    assert_eq!(marks.get("0").unwrap().as_str(), "/replaced");
    assert_eq!(marks.get("1").unwrap().as_str(), "/other");
    config.delete_mark("0");
    assert!(config.marks.as_ref().unwrap().get("0").is_none());
    config.clear_marks();
    assert!(config.marks.is_none());
}

#[test]
fn picker_colors_fall_back_to_defaults() {
    let defaults = PickerColorConfig::default_colors();
    let empty = PickerColorConfig {
        highlight_color: None,
        highlight_text_color: None,
        border_color: None,
        info_color: None,
        prompt_color: None,
    };
    assert_eq!(empty.with_defaults(), defaults);
    assert_eq!(empty.border_color(), defaults.border_color.unwrap());
    let style = empty.highlight_style();
    assert!(style.bold);
    assert_eq!(style.bg, defaults.highlight_color);
    assert_eq!(style.fg, defaults.highlight_text_color);
}

#[test]
fn marks_dispatch() {
    let bare = MarksCommand { index: None, cmd: None };
    assert_eq!(marks_command(&bare), Ok(MarksAction::List));
    let open = MarksCommand { index: Some(3), cmd: None };
    assert_eq!(marks_command(&open), Ok(MarksAction::Open(3)));
    let bad_delete = MarksCommand {
        index: None,
        cmd: Some(MarksSubCommand::Delete(MarksDeleteCommand { index: None, all: false })),
    };
    assert_eq!(marks_command(&bad_delete), Err(TmsError::ConfigError));
    let clear = MarksCommand {
        index: None,
        cmd: Some(MarksSubCommand::Delete(MarksDeleteCommand { index: None, all: true })),
    };
    assert_eq!(marks_command(&clear), Ok(MarksAction::Clear));
}

#[test]
fn mark_helpers() {
    assert_eq!(parse_usize("42"), Some(42));
    assert_eq!(parse_usize(""), None);
    assert_eq!(parse_usize("4x"), None);
    assert_eq!(parse_usize("99999999999999999999999999"), None);

    assert_eq!(first_free_index(&vec![0, 1, 2]), 3);
    assert_eq!(first_free_index(&vec![0, 2, 5]), 1);
    assert_eq!(first_free_index(&vec![4]), 0);
    assert_eq!(first_free_index(&Vec::<usize>::new()), 0);

    let session = path_to_session(&"/home/u/proj".to_string()).unwrap();
    assert_eq!(session.name, "proj");
    assert_eq!(session.path, "/home/u/proj");
    match path_to_session(&"///".to_string()) {
        Err(TmsError::ConfigError) => {}
        other => panic!("expected a config error, got {:?}", other),
    }
}

#[test]
fn clone_url_names() {
    assert_eq!(
        repo_name_from_url("git@host:group/app.git").as_deref(),
        Some("app")
    );
    assert_eq!(
        repo_name_from_url("https://host/group/app").as_deref(),
        Some("app")
    );
    assert_eq!(repo_name_from_url("plainname"), None);
}

#[test]
fn kill_picks_default_session_when_possible() {
    let sessions = vec!["alpha".to_string(), "beta".to_string()];
    let default = Some("beta".to_string());
    assert_eq!(
        kill_target_session("alpha", &sessions, &default).as_deref(),
        Some("beta")
    );
    // killing the default itself falls back to the first session
    assert_eq!(
        kill_target_session("beta", &sessions, &default).as_deref(),
        Some("alpha")
    );
    // a default that is not running is ignored
    assert_eq!(
        kill_target_session("alpha", &sessions, &Some("gone".to_string())).as_deref(),
        Some("alpha")
    );
    assert_eq!(kill_target_session("x", &Vec::new(), &None), None);
}

#[test]
fn open_session_reports_unknown_names() {
    let sessions: SessionMap = StrMap::new();
    match open_session(&sessions, "nope") {
        Err(TmsError::SessionNotFound(name)) => assert_eq!(name, "nope"),
        other => panic!("expected a missing-session error, got {:?}", other),
    }
}

#[test]
fn string_helpers() {
    assert_eq!(sanitize_session_name("a.b.c"), "a_b_c");
    assert_eq!(u32_to_string(0), "0");
    assert_eq!(u32_to_string(4032), "4032");
    let sorted = sort_strings(vec!["pear".to_string(), "apple".to_string(), "fig".to_string()]);
    assert_eq!(sorted, vec!["apple".to_string(), "fig".to_string(), "pear".to_string()]);
}

#[test]
fn error_messages_name_their_cause() {
    assert_eq!(TmsError::GitError.message(), "Git Error");
    assert_eq!(
        TmsError::TuiError("boom".to_string()).message(),
        "TUI error: boom"
    );
    assert_eq!(ConfigError::NoDefaultSearchPath.message(), "No default search path was found");
}
