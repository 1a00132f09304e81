use vstd::prelude::*;

use crate::configs::Config;
use crate::strutil::to_chars;

verus! {

/// The view of an argument vector.
pub open spec fn argv_view(v: Seq<String>) -> Seq<Seq<char>> {
    v.map_values(|s: String| s@)
}

/// A line with every quote and newline removed, the way the host quotes
/// its list output.
pub open spec fn cleaned_line(s: Seq<char>) -> Seq<char>
    decreases s.len(),
{
    if s.len() == 0 {
        Seq::empty()
    } else if s[0] == '\'' || s[0] == '\n' {
        cleaned_line(s.skip(1))
    } else {
        seq![s[0]] + cleaned_line(s.skip(1))
    }
}

/// The terminal-multiplexer driver: every method builds the exact argument
/// vector of one host command (the socket flag included); the surrounding
/// application spawns the process and feeds output text back in.
#[derive(Debug, Clone)]
pub struct Tmux {
    pub socket_name: String,
}

/// The socket prefix plus the given arguments.
pub open spec fn with_socket(socket: Seq<char>, args: Seq<Seq<char>>) -> Seq<Seq<char>> {
    seq!["-L"@, socket] + args
}

impl Tmux {
    /// A driver on the given socket. The default socket name comes from
    /// the environment, which the surrounding application reads.
    pub fn new(socket_name: String) -> (r: Tmux)
        ensures
            r.socket_name == socket_name,
    {
        Tmux { socket_name }
    }

    /// The `-L <socket>` prefix every command starts with.
    fn socket_args(&self) -> (r: Vec<String>)
        ensures
            r@.len() == 2,
            r@[0]@ == "-L"@,
            r@[1]@ == self.socket_name@,
    {
        let mut r: Vec<String> = Vec::new();
        r.push(String::from_str("-L"));
        r.push(self.socket_name.clone());
        r
    }

    /// `tmux` with no arguments: starts or shows the default session.
    pub fn tmux(&self) -> (r: Vec<String>)
        ensures
            argv_view(r@) == with_socket(self.socket_name@, Seq::empty()),
    {
        let mut r = self.socket_args();


        proof {
            assert(argv_view(r@) =~~= with_socket(self.socket_name@, Seq::empty()));
        }
        r
    }

    /// `list-sessions -F <format>`.
    pub fn list_sessions(&self, format: &str) -> (r: Vec<String>)
        ensures
            argv_view(r@) == with_socket(self.socket_name@, seq!["list-sessions"@, "-F"@, format@]),
    {
        let mut r = self.socket_args();
        r.push(String::from_str("list-sessions"));
        r.push(String::from_str("-F"));
        r.push(format.to_owned());
        proof {
            assert(argv_view(r@) =~~= with_socket(self.socket_name@, seq!["list-sessions"@, "-F"@, format@]));
        }
        r
    }

    /// `list-sessions -F <format> -f #{session_attached}`: only the
    /// session the client is attached to.
    pub fn current_session(&self, format: &str) -> (r: Vec<String>)
        ensures
            argv_view(r@) == with_socket(
                self.socket_name@,
                seq!["list-sessions"@, "-F"@, format@, "-f"@, "#{session_attached}"@],
            ),
    {
        let mut r = self.socket_args();
        r.push(String::from_str("list-sessions"));
        r.push(String::from_str("-F"));
        r.push(format.to_owned());
        r.push(String::from_str("-f"));
        r.push(String::from_str("#{session_attached}"));
        proof {
            assert(argv_view(r@) =~~= with_socket(
                self.socket_name@,
                seq!["list-sessions"@, "-F"@, format@, "-f"@, "#{session_attached}"@],
            ));
        }
        r
    }

    /// `kill-session -t <session>`.
    pub fn kill_session(&self, session: &str) -> (r: Vec<String>)
        ensures
            argv_view(r@) == with_socket(self.socket_name@, seq!["kill-session"@, "-t"@, session@]),
    {
        let mut r = self.socket_args();
        r.push(String::from_str("kill-session"));
        r.push(String::from_str("-t"));
        r.push(session.to_owned());
        proof {
            assert(argv_view(r@) =~~= with_socket(self.socket_name@, seq!["kill-session"@, "-t"@, session@]));
        }
        r
    }

    /// `rename-session <name>`.
    pub fn rename_session(&self, session_name: &str) -> (r: Vec<String>)
        ensures
            argv_view(r@) == with_socket(self.socket_name@, seq!["rename-session"@, session_name@]),
    {
        let mut r = self.socket_args();
        r.push(String::from_str("rename-session"));
        r.push(session_name.to_owned());
        proof {
            assert(argv_view(r@) =~~= with_socket(self.socket_name@, seq!["rename-session"@, session_name@]));
        }
        r
    }

    /// `kill-window -t <window>`.
    pub fn kill_window(&self, window: &str) -> (r: Vec<String>)
        ensures
            argv_view(r@) == with_socket(self.socket_name@, seq!["kill-window"@, "-t"@, window@]),
    {
        let mut r = self.socket_args();
        r.push(String::from_str("kill-window"));
        r.push(String::from_str("-t"));
        r.push(window.to_owned());
        proof {
            assert(argv_view(r@) =~~= with_socket(self.socket_name@, seq!["kill-window"@, "-t"@, window@]));
        }
        r
    }

    /// `select-window -t <window>`.
    pub fn select_window(&self, window: &str) -> (r: Vec<String>)
        ensures
            argv_view(r@) == with_socket(self.socket_name@, seq!["select-window"@, "-t"@, window@]),
    {
        let mut r = self.socket_args();
        r.push(String::from_str("select-window"));
        r.push(String::from_str("-t"));
        r.push(window.to_owned());
        proof {
            assert(argv_view(r@) =~~= with_socket(self.socket_name@, seq!["select-window"@, "-t"@, window@]));
        }
        r
    }

    /// `display-message -p <format>`.
    pub fn display_message(&self, format: &str) -> (r: Vec<String>)
        ensures
            argv_view(r@) == with_socket(self.socket_name@, seq!["display-message"@, "-p"@, format@]),
    {
        let mut r = self.socket_args();
        r.push(String::from_str("display-message"));
        r.push(String::from_str("-p"));
        r.push(format.to_owned());
        proof {
            assert(argv_view(r@) =~~= with_socket(self.socket_name@, seq!["display-message"@, "-p"@, format@]));
        }
        r
    }

    /// `refresh-client -S`.
    pub fn refresh_client(&self) -> (r: Vec<String>)
        ensures
            argv_view(r@) == with_socket(self.socket_name@, seq!["refresh-client"@, "-S"@]),
    {
        let mut r = self.socket_args();
        r.push(String::from_str("refresh-client"));
        r.push(String::from_str("-S"));

        proof {
            assert(argv_view(r@) =~~= with_socket(self.socket_name@, seq!["refresh-client"@, "-S"@]));
        }
        r
    }

    /// `capture-pane -ep -t <target>`.
    pub fn capture_pane(&self, target_pane: &str) -> (r: Vec<String>)
        ensures
            argv_view(r@) == with_socket(self.socket_name@, seq!["capture-pane"@, "-ep"@, "-t"@, target_pane@]),
    {
        let mut r = self.socket_args();
        r.push(String::from_str("capture-pane"));
        r.push(String::from_str("-ep"));
        r.push(String::from_str("-t"));
        r.push(target_pane.to_owned());
        proof {
            assert(argv_view(r@) =~~= with_socket(self.socket_name@, seq!["capture-pane"@, "-ep"@, "-t"@, target_pane@]));
        }
        r
    }

    /// `new-session -d [-s name] [-c path]`.
    pub fn new_session(&self, name: Option<&str>, path: Option<&str>) -> (r: Vec<String>)
        ensures
            argv_view(r@) == with_socket(
                self.socket_name@,
                seq!["new-session"@, "-d"@] + (match name {
                    Some(n) => seq!["-s"@, n@],
                    None => Seq::<Seq<char>>::empty(),
                }) + (match path {
                    Some(p) => seq!["-c"@, p@],
                    None => Seq::<Seq<char>>::empty(),
                }),
            ),
    {
        let mut r = self.socket_args();
        r.push(String::from_str("new-session"));
        r.push(String::from_str("-d"));
        match name {
            Some(n) => {
                r.push(String::from_str("-s"));
                r.push(n.to_owned());
            },
            None => {},
        }
        match path {
            Some(p) => {
                r.push(String::from_str("-c"));
                r.push(p.to_owned());
            },
            None => {},
        }
        proof {
            assert(argv_view(r@) =~~= with_socket(
                self.socket_name@,
                seq!["new-session"@, "-d"@] + (match name {
                    Some(n) => seq!["-s"@, n@],
                    None => Seq::<Seq<char>>::empty(),
                }) + (match path {
                    Some(p) => seq!["-c"@, p@],
                    None => Seq::<Seq<char>>::empty(),
                }),
            ));
        }
        r
    }

    /// `attach-session [-t name] [-c path]`; the application replaces its
    /// own process with this command.
    pub fn attach_session(&self, session_name: Option<&str>, path: Option<&str>) -> (r: Vec<
        String,
    >)
        ensures
            argv_view(r@) == with_socket(
                self.socket_name@,
                seq!["attach-session"@] + (match session_name {
                    Some(n) => seq!["-t"@, n@],
                    None => Seq::<Seq<char>>::empty(),
                }) + (match path {
                    Some(p) => seq!["-c"@, p@],
                    None => Seq::<Seq<char>>::empty(),
                }),
            ),
    {
        let mut r = self.socket_args();
        r.push(String::from_str("attach-session"));
        match session_name {
            Some(n) => {
                r.push(String::from_str("-t"));
                r.push(n.to_owned());
            },
            None => {},
        }
        match path {
            Some(p) => {
                r.push(String::from_str("-c"));
                r.push(p.to_owned());
            },
            None => {},
        }
        proof {
            assert(argv_view(r@) =~~= with_socket(
                self.socket_name@,
                seq!["attach-session"@] + (match session_name {
                    Some(n) => seq!["-t"@, n@],
                    None => Seq::<Seq<char>>::empty(),
                }) + (match path {
                    Some(p) => seq!["-c"@, p@],
                    None => Seq::<Seq<char>>::empty(),
                }),
            ));
        }
        r
    }

    /// `switch-client -t <name>`, with `attach-session -t <name>` as the
    /// fallback when switching fails.
    pub fn switch_client(&self, session_name: &str) -> (r: (Vec<String>, Vec<String>))
        ensures
            argv_view(r.0@) == with_socket(
                self.socket_name@,
                seq!["switch-client"@, "-t"@, session_name@],
            ),
            argv_view(r.1@) == with_socket(
                self.socket_name@,
                seq!["attach-session"@, "-t"@, session_name@],
            ),
    {
        let mut first = self.socket_args();
        first.push(String::from_str("switch-client"));
        first.push(String::from_str("-t"));
        first.push(session_name.to_owned());
        let fallback = self.attach_session(Some(session_name), None);
        proof {
            assert(argv_view(first@) =~~= with_socket(
                self.socket_name@,
                seq!["switch-client"@, "-t"@, session_name@],
            ));
            assert(argv_view(fallback@) =~~= with_socket(
                self.socket_name@,
                seq!["attach-session"@, "-t"@, session_name@],
            ));
        }
        (first, fallback)
    }

    /// The switch plan: attach directly when not inside the host, else
    /// switch the client and fall back to attaching when that fails.
    pub fn switch_to_session(&self, repo_short_name: &str, in_session: bool) -> (r: SwitchPlan)
        ensures
            !in_session ==> argv_view(r.primary@) == with_socket(
                self.socket_name@,
                seq!["attach-session"@, "-t"@, repo_short_name@],
            ) && r.fallback is None,
            in_session ==> argv_view(r.primary@) == with_socket(
                self.socket_name@,
                seq!["switch-client"@, "-t"@, repo_short_name@],
            ) && r.fallback is Some && argv_view(r.fallback.unwrap()@) == with_socket(
                self.socket_name@,
                seq!["attach-session"@, "-t"@, repo_short_name@],
            ),
    {
        if !in_session {
            let attach = self.attach_session(Some(repo_short_name), None);
            SwitchPlan { primary: attach, fallback: None }
        } else {
            let (switch, attach) = self.switch_client(repo_short_name);
            SwitchPlan { primary: switch, fallback: Some(attach) }
        }
    }

    /// `new-window [-n name] [-c path] [-t session]`.
    pub fn new_window(&self, name: Option<&str>, path: Option<&str>, session: Option<&str>) -> (r:
        Vec<String>)
        ensures
            argv_view(r@) == with_socket(
                self.socket_name@,
                seq!["new-window"@] + (match name {
                    Some(n) => seq!["-n"@, n@],
                    None => Seq::<Seq<char>>::empty(),
                }) + (match path {
                    Some(p) => seq!["-c"@, p@],
                    None => Seq::<Seq<char>>::empty(),
                }) + (match session {
                    Some(s) => seq!["-t"@, s@],
                    None => Seq::<Seq<char>>::empty(),
                }),
            ),
    {
        let mut r = self.socket_args();
        r.push(String::from_str("new-window"));
        match name {
            Some(n) => {
                r.push(String::from_str("-n"));
                r.push(n.to_owned());
            },
            None => {},
        }
        match path {
            Some(p) => {
                r.push(String::from_str("-c"));
                r.push(p.to_owned());
            },
            None => {},
        }
        match session {
            Some(s) => {
                r.push(String::from_str("-t"));
                r.push(s.to_owned());
            },
            None => {},
        }
        proof {
            assert(argv_view(r@) =~~= with_socket(
                self.socket_name@,
                seq!["new-window"@] + (match name {
                    Some(n) => seq!["-n"@, n@],
                    None => Seq::<Seq<char>>::empty(),
                }) + (match path {
                    Some(p) => seq!["-c"@, p@],
                    None => Seq::<Seq<char>>::empty(),
                }) + (match session {
                    Some(s) => seq!["-t"@, s@],
                    None => Seq::<Seq<char>>::empty(),
                }),
            ));
        }
        r
    }

    /// `list-windows -F <format> [-t session]`.
    pub fn list_windows(&self, format: &str, session: Option<&str>) -> (r: Vec<String>)
        ensures
            argv_view(r@) == with_socket(
                self.socket_name@,
                seq!["list-windows"@, "-F"@, format@] + (match session {
                    Some(s) => seq!["-t"@, s@],
                    None => Seq::<Seq<char>>::empty(),
                }),
            ),
    {
        let mut r = self.socket_args();
        r.push(String::from_str("list-windows"));
        r.push(String::from_str("-F"));
        r.push(format.to_owned());
        match session {
            Some(s) => {
                r.push(String::from_str("-t"));
                r.push(s.to_owned());
            },
            None => {},
        }
        proof {
            assert(argv_view(r@) =~~= with_socket(
                self.socket_name@,
                seq!["list-windows"@, "-F"@, format@] + (match session {
                    Some(s) => seq!["-t"@, s@],
                    None => Seq::<Seq<char>>::empty(),
                }),
            ));
        }
        r
    }

    /// `send-keys [-t pane] <command> Enter`.
    pub fn send_keys(&self, command: &str, pane: Option<&str>) -> (r: Vec<String>)
        ensures
            argv_view(r@) == with_socket(
                self.socket_name@,
                seq!["send-keys"@] + (match pane {
                    Some(p) => seq!["-t"@, p@],
                    None => Seq::<Seq<char>>::empty(),
                }) + seq![command@, "Enter"@],
            ),
    {
        let mut r = self.socket_args();
        r.push(String::from_str("send-keys"));
        match pane {
            Some(p) => {
                r.push(String::from_str("-t"));
                r.push(p.to_owned());
            },
            None => {},
        }
        r.push(command.to_owned());
        r.push(String::from_str("Enter"));
        proof {
            assert(argv_view(r@) =~~= with_socket(
                self.socket_name@,
                seq!["send-keys"@] + (match pane {
                    Some(p) => seq!["-t"@, p@],
                    None => Seq::<Seq<char>>::empty(),
                }) + seq![command@, "Enter"@],
            ));
        }
        r
    }

    /// Whether the host's quoted session listing holds `repo_short_name`:
    /// some line, with quotes and newlines removed, equals it.
    pub fn session_exists(&self, sessions_output: &str, repo_short_name: &str) -> (r: bool)
        ensures
            r == exists|i: int|
                0 <= i < crate::ansi::lines_of(sessions_output@).len() && cleaned_line(
                    #[trigger] crate::ansi::lines_of(sessions_output@)[i],
                ) == repo_short_name@,
    {
        let chars = to_chars(sessions_output);
        let n = chars.len();
        let target = to_chars(repo_short_name);
        let ghost all = crate::ansi::lines_of(sessions_output@);
        let mut cur: Vec<char> = Vec::new();
        let ghost mut done: Seq<Seq<char>> = Seq::empty();
        let mut found = false;
        let mut i: usize = 0;
        proof {
            assert(sessions_output@.skip(0) =~~= sessions_output@);
            assert(cur@ =~~= Seq::<char>::empty());
        }
        while i < n
            invariant
                n == chars@.len(),
                chars@ == sessions_output@,
                target@ == repo_short_name@,
                i <= n,
                crate::ansi::lines_rec(sessions_output@.skip(i as int), cur@, done) == all,
                found == exists|j: int|
                    0 <= j < done.len() && cleaned_line(#[trigger] done[j]) == repo_short_name@,
            decreases n - i,
        {
            let ghost pre_s = sessions_output@.skip(i as int);
            let ghost pre_cur = cur@;
            let ghost pre_done = done;
            let c = chars[i];
            proof {
                assert(pre_s[0] == sessions_output@[i as int]);
                assert(pre_s.skip(1) =~~= sessions_output@.skip(i as int + 1));
            }
            if c == '\n' {
                if cur.len() > 0 && cur[cur.len() - 1] == '\r' {
                    cur.pop();
                    proof {
                        assert(cur@ =~~= pre_cur.drop_last());
                    }
                }
                let line_matches = cleaned_eq(&cur, &target);
                let ghost found_old = found;
                proof {
                    done = done.push(cur@);
                }
                if line_matches {
                    found = true;
                }
                proof {
                    if found_old {
                        let j = choose|j: int|
                            0 <= j < pre_done.len() && cleaned_line(#[trigger] pre_done[j])
                                == repo_short_name@;
                        assert(done[j] == pre_done[j]);
                        assert(cleaned_line(done[j]) == repo_short_name@);
                    }
                    if line_matches {
                        assert(cleaned_line(done[done.len() - 1]) == repo_short_name@);
                    }
                    if !found {
                        if exists|j: int|
                            0 <= j < done.len() && cleaned_line(#[trigger] done[j])
                                == repo_short_name@ {
                            let j = choose|j: int|
                                0 <= j < done.len() && cleaned_line(#[trigger] done[j])
                                    == repo_short_name@;
                            if j < done.len() - 1 {
                                assert(pre_done[j] == done[j]);
                                assert(false);
                            } else {
                                assert(false);
                            }
                        }
                    }
                    assert(found == exists|j: int|
                        0 <= j < done.len() && cleaned_line(#[trigger] done[j])
                            == repo_short_name@);
                }
                cur = Vec::new();
                proof {
                    assert(cur@ =~~= Seq::<char>::empty());
                }
            } else {
                cur.push(c);
            }
            i = i + 1;
        }
        proof {
            assert(sessions_output@.skip(n as int) =~~= Seq::<char>::empty());
        }
        if cur.len() > 0 {
            let ghost pre_done = done;
            let line_matches = cleaned_eq(&cur, &target);
            let ghost found_old = found;
            proof {
                done = done.push(cur@);
            }
            if line_matches {
                found = true;
            }
            proof {
                if found_old {
                    let j = choose|j: int|
                        0 <= j < pre_done.len() && cleaned_line(#[trigger] pre_done[j])
                            == repo_short_name@;
                    assert(done[j] == pre_done[j]);
                    assert(cleaned_line(done[j]) == repo_short_name@);
                }
                if line_matches {
                    assert(cleaned_line(done[done.len() - 1]) == repo_short_name@);
                }
                if !found {
                    if exists|j: int|
                        0 <= j < done.len() && cleaned_line(#[trigger] done[j])
                            == repo_short_name@ {
                        let j = choose|j: int|
                            0 <= j < done.len() && cleaned_line(#[trigger] done[j])
                                == repo_short_name@;
                        if j < done.len() - 1 {
                            assert(pre_done[j] == done[j]);
                            assert(false);
                        } else {
                            assert(false);
                        }
                    }
                }
            }
        }
        proof {
            assert(done == all);
        }
        found
    }

    /// The script a created session should run: the configured per-session
    /// script when there is one, else `<path>/.tms-create`. The caller runs
    /// it through `run_session_script` only when the file exists.
    pub fn run_session_create_script(&self, path: &str, session_name: &str, config: &Config) -> (r:
        String)
        requires
            config.session_configs is Some ==> config.session_configs.unwrap().wf(),
        ensures
            ({
                let configured = if config.session_configs is Some
                    && config.session_configs.unwrap().view_map().contains_key(session_name@)
                    && config.session_configs.unwrap().view_map()[session_name@].create_script
                    is Some {
                    Some(
                        config.session_configs.unwrap().view_map()[session_name@].create_script.unwrap(),
                    )
                } else {
                    None::<String>
                };
                match configured {
                    Some(script) => r@ == script@,
                    None => r@ == path@ + "/.tms-create"@,
                }
            }),
    {
        match &self.find_create_script(session_name, config) {
            Some(script) => script.clone(),
            None => {
                let mut s = path.to_owned();
                s.append("/.tms-create");
                s
            },
        }
    }

    /// The configured create script of a session, if any.
    fn find_create_script(&self, session_name: &str, config: &Config) -> (r: Option<String>)
        requires
            config.session_configs is Some ==> config.session_configs.unwrap().wf(),
        ensures
            match r {
                Some(script) => config.session_configs is Some
                    && config.session_configs.unwrap().view_map().contains_key(session_name@)
                    && config.session_configs.unwrap().view_map()[session_name@].create_script
                    is Some && script@
                    == config.session_configs.unwrap().view_map()[session_name@].create_script.unwrap()@,
                None => !(config.session_configs is Some
                    && config.session_configs.unwrap().view_map().contains_key(session_name@)
                    && config.session_configs.unwrap().view_map()[session_name@].create_script
                    is Some),
            },
    {
        match &config.session_configs {
            Some(sessions) => {
                match sessions.get(session_name) {
                    Some(sc) => {
                        match &sc.create_script {
                            Some(script) => Some(script.clone()),
                            None => None,
                        }
                    },
                    None => None,
                }
            },
            None => None,
        }
    }

    /// `send-keys` for the create script, aimed at the first pane of the
    /// new session.
    pub fn run_session_script(&self, command_path: &str, session_name: &str) -> (r: Vec<String>)
        ensures
            argv_view(r@) == with_socket(
                self.socket_name@,
                seq!["send-keys"@, "-t"@, session_name@ + ":{start}.{top}"@, command_path@, "Enter"@],
            ),
    {
        let mut target = session_name.to_owned();
        target.append(":{start}.{top}");
        let r = self.send_keys(command_path, Some(target.as_str()));
        proof {
            assert(argv_view(r@) =~~= with_socket(
                self.socket_name@,
                seq![
                    "send-keys"@,
                    "-t"@,
                    session_name@ + ":{start}.{top}"@,
                    command_path@,
                    "Enter"@,
                ],
            ));
        }
        r
    }
}

/// How to reach a session: the command to try, and the fallback when it
/// fails.
#[derive(Debug, Clone)]
pub struct SwitchPlan {
    pub primary: Vec<String>,
    pub fallback: Option<Vec<String>>,
}

/// The line, cleaned of quotes and newlines, equals the target.
fn cleaned_eq(line: &Vec<char>, target: &Vec<char>) -> (r: bool)
    ensures
        r == (cleaned_line(line@) == target@),
{
    let mut cleaned: Vec<char> = Vec::new();
    let mut i: usize = 0;
    proof {
        assert(line@.skip(0) =~~= line@);
        assert(cleaned@ =~~= Seq::<char>::empty());
    }
    while i < line.len()
        invariant
            i <= line@.len(),
            cleaned@ + cleaned_line(line@.skip(i as int)) == cleaned_line(line@),
        decreases line@.len() - i,
    {
        let ghost pre_s = line@.skip(i as int);
        let ghost pre_c = cleaned@;
        let c = line[i];
        proof {
            assert(pre_s[0] == line@[i as int]);
            assert(pre_s.skip(1) =~~= line@.skip(i as int + 1));
        }
        if c != '\'' && c != '\n' {
            cleaned.push(c);
            proof {
                assert(cleaned@ + cleaned_line(line@.skip(i as int + 1)) =~~= pre_c + (seq![c]
                    + cleaned_line(line@.skip(i as int + 1))));
            }
        }
        i = i + 1;
    }
    proof {
        assert(line@.skip(line@.len() as int) =~~= Seq::<char>::empty());
        assert(cleaned@ =~~= cleaned_line(line@));
    }
    let mut eq = cleaned.len() == target.len();
    let mut j: usize = 0;
    while eq && j < cleaned.len()
        invariant
            eq ==> cleaned@.len() == target@.len(),
            j <= cleaned@.len(),
            eq ==> forall|k: int| 0 <= k < j ==> cleaned@[k] == target@[k],
            !eq ==> cleaned@ != target@,
        decreases cleaned@.len() - j + (if eq {
            1int
        } else {
            0int
        }),
    {
        if cleaned[j] != target[j] {
            eq = false;
        } else {
            j = j + 1;
        }
    }
    proof {
        if eq {
            assert(cleaned@ =~~= target@);
        }
    }
    eq
}

} // verus!
