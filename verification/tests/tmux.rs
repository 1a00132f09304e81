use tms::configs::Config;
use tms::tmux::Tmux;

fn tmux() -> Tmux {
    Tmux::new("default".to_string())
}

#[test]
fn new_session_args() {
    let t = tmux();
    assert_eq!(
        t.new_session(Some("work"), Some("/srv/work")),
        vec!["-L", "default", "new-session", "-d", "-s", "work", "-c", "/srv/work"]
    );
    assert_eq!(t.new_session(None, None), vec!["-L", "default", "new-session", "-d"]);
}

#[test]
fn list_and_display_args() {
    let t = tmux();
    assert_eq!(t.list_sessions("#S"), vec!["-L", "default", "list-sessions", "-F", "#S"]);
    assert_eq!(
        t.current_session("#S"),
        vec!["-L", "default", "list-sessions", "-F", "#S", "-f", "#{session_attached}"]
    );
    assert_eq!(
        t.display_message("'#S'"),
        vec!["-L", "default", "display-message", "-p", "'#S'"]
    );
    assert_eq!(
        t.list_windows("#W", Some("dev")),
        vec!["-L", "default", "list-windows", "-F", "#W", "-t", "dev"]
    );
    assert_eq!(t.capture_pane("dev"), vec!["-L", "default", "capture-pane", "-ep", "-t", "dev"]);
    assert_eq!(t.refresh_client(), vec!["-L", "default", "refresh-client", "-S"]);
}

#[test]
fn switching_args() {
    let t = tmux();
    let plan = t.switch_to_session("dev", false);
    assert_eq!(plan.primary, vec!["-L", "default", "attach-session", "-t", "dev"]);
    assert!(plan.fallback.is_none());

    let plan = t.switch_to_session("dev", true);
    assert_eq!(plan.primary, vec!["-L", "default", "switch-client", "-t", "dev"]);
    assert_eq!(
        plan.fallback.unwrap(),
        vec!["-L", "default", "attach-session", "-t", "dev"]
    );
}

#[test]
fn window_args() {
    let t = tmux();
    assert_eq!(
        t.new_window(Some("w"), Some("/p"), Some("s")),
        vec!["-L", "default", "new-window", "-n", "w", "-c", "/p", "-t", "s"]
    );
    assert_eq!(t.kill_window(":1"), vec!["-L", "default", "kill-window", "-t", ":1"]);
    assert_eq!(t.select_window("@2"), vec!["-L", "default", "select-window", "-t", "@2"]);
    assert_eq!(
        t.send_keys("ls", Some("dev:1.0")),
        vec!["-L", "default", "send-keys", "-t", "dev:1.0", "ls", "Enter"]
    );
}

#[test]
fn session_exists_cleans_quoting() {
    let t = tmux();
    let listing = "'alpha'\n'beta'\n";
    assert!(t.session_exists(listing, "alpha"));
    assert!(t.session_exists(listing, "beta"));
    assert!(!t.session_exists(listing, "gamma"));
    assert!(!t.session_exists("", "alpha"));
}

#[test]
fn session_create_script_path() {
    let t = tmux();
    let config = Config::empty();
    assert_eq!(
        t.run_session_create_script("/srv/app", "app", &config),
        "/srv/app/.tms-create"
    );
    assert_eq!(
        t.run_session_script("/srv/app/.tms-create", "app"),
        vec!["-L", "default", "send-keys", "-t", "app:{start}.{top}", "/srv/app/.tms-create", "Enter"]
    );
}
