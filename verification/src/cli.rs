use vstd::prelude::*;

use crate::error::TmsError;
use crate::session::{Session, SessionContainer, SessionMap};
use crate::strutil::{from_chars, str_eq, to_chars};

verus! {

/// Arguments of `rename`.
#[derive(Debug, Clone, PartialEq, Eq)]
pub struct RenameCommand {
    pub name: String,
}

/// Arguments of `refresh`.
#[derive(Debug, Clone, PartialEq, Eq)]
pub struct RefreshCommand {
    pub name: Option<String>,
}

/// Arguments of `clone-repo`.
#[derive(Debug, Clone, PartialEq, Eq)]
pub struct CloneRepoCommand {
    pub repository: String,
}

/// Arguments of `init-repo`.
#[derive(Debug, Clone, PartialEq, Eq)]
pub struct InitRepoCommand {
    pub repository: String,
}

/// Arguments of `bookmark`.
#[derive(Debug, Clone, PartialEq, Eq)]
pub struct BookmarkCommand {
    pub delete: bool,
    pub path: Option<String>,
}

/// Arguments of `open-session`.
#[derive(Debug, Clone, PartialEq, Eq)]
pub struct OpenSessionCommand {
    pub session: String,
}

/// The `config` subcommands.
#[derive(Debug, Clone, PartialEq, Eq)]
pub enum ConfigSubCommand {
    List(ConfigSubCommandArgs),
}

/// Arguments of `config list`.
#[derive(Debug, Clone, Copy, PartialEq, Eq, Structural)]
pub struct ConfigSubCommandArgs {
    pub defaults: bool,
}

/// Looks a session up for `open-session`; an unknown name is its own error.
pub fn open_session<'a>(sessions: &'a SessionMap, name: &str) -> (r: Result<
    &'a Session,
    TmsError,
>)
    requires
        sessions.wf(),
    ensures
        match r {
            Ok(s) => sessions.catalog().contains_key(name@) && *s == sessions.catalog()[name@],
            Err(e) => !sessions.catalog().contains_key(name@) && (e matches
                TmsError::SessionNotFound(n) && n@ == name@),
        },
{
    match sessions.find_session(name) {
        Some(s) => Ok(s),
        None => Err(TmsError::SessionNotFound(name.to_owned())),
    }
}

/// The session `kill` jumps to after killing the current one: the
/// configured default session when it is running and is not the one being
/// killed, else the first listed session.
pub fn kill_target_session(
    current: &str,
    sessions: &Vec<String>,
    default_session: &Option<String>,
) -> (r: Option<String>)
    ensures
        ({
            let use_default = default_session matches Some(d) && crate::picker::spec_runs(
                sessions@,
                d@,
            ) && d@ != current@;
            if use_default {
                r matches Some(s) && s@ == default_session.unwrap()@
            } else if sessions@.len() > 0 {
                r matches Some(s) && s@ == sessions@[0]@
            } else {
                r is None
            }
        }),
{
    let use_default = match default_session {
        Some(d) => {
            let mut listed = false;
            let mut i: usize = 0;
            while i < sessions.len() && !listed
                invariant
                    i <= sessions@.len(),
                    !listed ==> forall|j: int| 0 <= j < i ==> (#[trigger] sessions@[j])@ != d@,
                    listed ==> crate::picker::spec_runs(sessions@, d@),
                decreases sessions@.len() - i + (if listed {
                    0int
                } else {
                    1int
                }),
            {
                if str_eq(sessions[i].as_str(), d.as_str()) {
                    proof {
                        assert((sessions@[i as int])@ == d@);
                    }
                    listed = true;
                } else {
                    i = i + 1;
                }
            }
            listed && !str_eq(current, d.as_str())
        },
        None => false,
    };
    if use_default {
        match default_session {
            Some(d) => Some(d.clone()),
            None => None,
        }
    } else {
        if sessions.len() > 0 {
            Some(sessions[0].clone())
        } else {
            None
        }
    }
}

/// The characters after the last `/`, or nothing when there is no `/`.
pub open spec fn tail_after_slash(s: Seq<char>) -> Option<Seq<char>>
    decreases s.len(),
{
    if s.len() == 0 {
        None
    } else if s.last() == '/' {
        Some(Seq::empty())
    } else {
        match tail_after_slash(s.drop_last()) {
            Some(t) => Some(t.push(s.last())),
            None => None,
        }
    }
}

/// A trailing `.git` removed, if present.
pub open spec fn strip_git(t: Seq<char>) -> Seq<char> {
    if t.len() >= 4 && t.skip(t.len() - 4) == ".git"@ {
        t.take(t.len() - 4)
    } else {
        t
    }
}

/// The repository name a clone URL denotes: the part after the last `/`,
/// with a trailing `.git` removed. A URL without a `/` has no name.
pub fn repo_name_from_url(url: &str) -> (r: Option<String>)
    ensures
        r is Some <==> tail_after_slash(url@) is Some,
        r matches Some(s) ==> s@ == strip_git(tail_after_slash(url@).unwrap()),
{
    let chars = to_chars(url);
    let n = chars.len();
    // scan backwards for the last slash
    let mut p: usize = n;
    while p > 0 && chars[p - 1] != '/'
        invariant
            n == chars@.len(),
            chars@ == url@,
            p <= n,
            forall|k: int| p <= k < n ==> chars@[k] != '/',
        decreases p,
    {
        p = p - 1;
    }
    if p == 0 {
        proof {
            lemma_tail_none(url@);
        }
        return None;
    }
    proof {
        assert(url@[p - 1] == '/');
        lemma_tail_some(url@, p as int - 1);
    }
    let mut tail: Vec<char> = Vec::new();
    let mut i: usize = p;
    while i < n
        invariant
            n == chars@.len(),
            chars@ == url@,
            p <= i <= n,
            tail@ == url@.subrange(p as int, i as int),
        decreases n - i,
    {
        tail.push(chars[i]);
        i = i + 1;
        proof {
            assert(tail@ =~= url@.subrange(p as int, i as int));
        }
    }
    proof {
        assert(tail@ == tail_after_slash(url@).unwrap());
    }
    // strip a trailing ".git"
    let tl = tail.len();
    let has_git = tl >= 4 && tail[tl - 4] == '.' && tail[tl - 3] == 'g' && tail[tl - 2] == 'i'
        && tail[tl - 1] == 't';
    proof {
        reveal_strlit(".git");
        if tl >= 4 {
            if has_git {
                assert(tail@.skip(tl - 4) =~= ".git"@);
            } else {
                assert(tail@.skip(tl - 4) != ".git"@) by {
                    if tail@.skip(tl - 4) == ".git"@ {
                        assert(tail@.skip(tl - 4)[0] == tail@[tl - 4]);
                        assert(tail@.skip(tl - 4)[1] == tail@[tl - 3]);
                        assert(tail@.skip(tl - 4)[2] == tail@[tl - 2]);
                        assert(tail@.skip(tl - 4)[3] == tail@[tl - 1]);
                    }
                }
            }
        }
    }
    if has_git {
        let mut out: Vec<char> = Vec::new();
        let mut k: usize = 0;
        while k < tl - 4
            invariant
                tl == tail@.len(),
                tl >= 4,
                k <= tl - 4,
                out@ == tail@.take(k as int),
            decreases tl - 4 - k,
        {
            out.push(tail[k]);
            k = k + 1;
            proof {
                assert(out@ =~= tail@.take(k as int));
            }
        }
        proof {
            assert(out@ == strip_git(tail@));
        }
        Some(from_chars(&out))
    } else {
        Some(from_chars(&tail))
    }
}

/// A string without `/` has no tail after a slash.
proof fn lemma_tail_none(s: Seq<char>)
    requires
        forall|k: int| 0 <= k < s.len() ==> s[k] != '/',
    ensures
        tail_after_slash(s) is None,
    decreases s.len(),
{
    if s.len() > 0 {
        assert(forall|k: int|
            0 <= k < s.drop_last().len() ==> s.drop_last()[k] == s[k] && #[trigger] s.drop_last()[k]
                != '/');
        lemma_tail_none(s.drop_last());
    }
}

/// When `p` is the last slash, the tail is everything after it.
proof fn lemma_tail_some(s: Seq<char>, p: int)
    requires
        0 <= p < s.len(),
        s[p] == '/',
        forall|k: int| p < k < s.len() ==> s[k] != '/',
    ensures
        tail_after_slash(s) == Some(s.subrange(p + 1, s.len() as int)),
    decreases s.len(),
{
    if p == s.len() - 1 {
        assert(s.last() == '/');
        assert(s.subrange(p + 1, s.len() as int) =~= Seq::<char>::empty());
    } else {
        assert(s.last() != '/');
        assert(s.drop_last()[p] == s[p]);
        assert(forall|k: int|
            p < k < s.drop_last().len() ==> #[trigger] s.drop_last()[k] == s[k]);
        lemma_tail_some(s.drop_last(), p);
        assert(s.drop_last().subrange(p + 1, s.drop_last().len() as int).push(s.last())
            =~= s.subrange(p + 1, s.len() as int));
    }
}

} // verus!
