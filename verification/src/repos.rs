use vstd::prelude::*;

use crate::configs::SearchDirectory;
use crate::error::TmsError;
use crate::session::{Session, SessionType};
use crate::strmap::StrMap;
use crate::strutil::{basename, contains_seq, path_components, push_char};

verus! {

// ---------------------------------------------------------------------------
// The exclusion filter, behind trusted wrappers
// ---------------------------------------------------------------------------

#[verifier::external_type_specification]
#[verifier::external_body]
pub struct ExAhoCorasick(aho_corasick::AhoCorasick);

/// The literal patterns the exclusion automaton was built from.
pub uninterp spec fn excluder_patterns(a: aho_corasick::AhoCorasick) -> Seq<Seq<char>>;

/// The path contains one of the exclusion literals as a substring.
pub open spec fn is_excluded_by(path: Seq<char>, pats: Seq<Seq<char>>) -> bool {
    exists|i: int| 0 <= i < pats.len() && contains_seq(path, #[trigger] pats[i])
}

/// Relies on `aho_corasick::AhoCorasick::new`: builds a multi-pattern
/// literal matcher over exactly the given patterns.
#[verifier::external_body]
fn build_excluder(patterns: &Vec<String>) -> (r: Result<aho_corasick::AhoCorasick, TmsError>)
    ensures
        r matches Ok(a) ==> excluder_patterns(a) == patterns@.map_values(|s: String| s@),
{
    match aho_corasick::AhoCorasick::new(patterns) {
        Ok(a) => Ok(a),
        Err(_) => Err(TmsError::IoError),
    }
}

/// Relies on `aho_corasick::AhoCorasick::is_match`: reports whether any of
/// the automaton's patterns occurs in the haystack as a substring. Both
/// sides are valid UTF-8, so byte-level occurrence and character-level
/// occurrence coincide.
#[verifier::external_body]
fn excluder_matches(a: &aho_corasick::AhoCorasick, hay: &String) -> (r: bool)
    ensures
        r == is_excluded_by(hay@, excluder_patterns(*a)),
{
    a.is_match(hay.as_str())
}

// ---------------------------------------------------------------------------
// The discovery engine
// ---------------------------------------------------------------------------

/// What probing one queued path found. The surrounding application opens
/// the path as a repository and lists directories; the engine makes every
/// decision.
pub enum ProbeOutcome {
    /// The path opened as a repository; `worktree` says it is a secondary
    /// worktree checkout of another repository.
    Repository { worktree: bool },
    /// Not a repository, but a directory with these children.
    Directory { children: Vec<String> },
    /// Not a repository and not a directory.
    NotDirectory,
    /// The directory could not be read for lack of permission; the subtree
    /// is skipped, not fatal.
    PermissionDenied,
    /// The directory could not be read for another reason; fatal.
    ReadError,
}

/// The breadth-first discovery engine: a FIFO queue of paths to try, the
/// compiled exclusion filter, and the collision groups found so far
/// (candidate basename mapped to every candidate sharing it).
pub struct DiscoveryEngine {
    pub to_search: Vec<SearchDirectory>,
    pub excluder: Option<aho_corasick::AhoCorasick>,
    pub repos: StrMap<Vec<Session>>,
}

impl DiscoveryEngine {
    /// The exclusion literals in force.
    pub open spec fn exclusions(&self) -> Seq<Seq<char>> {
        match self.excluder {
            Some(a) => excluder_patterns(a),
            None => Seq::empty(),
        }
    }

    /// Seeds the engine with the configured search roots and exclusion
    /// literals.
    pub fn new(search_dirs: Vec<SearchDirectory>, excluded_dirs: Option<&Vec<String>>) -> (r:
        Result<DiscoveryEngine, TmsError>)
        ensures
            match r {
                Ok(e) => {
                    &&& e.to_search@ == search_dirs@
                    &&& e.repos.wf()
                    &&& e.repos.entry_seq().len() == 0
                    &&& e.exclusions() == match excluded_dirs {
                        Some(v) => v@.map_values(|s: String| s@),
                        None => Seq::<Seq<char>>::empty(),
                    }
                },
                Err(e) => e == TmsError::IoError && excluded_dirs is Some,
            },
    {
        let excluder = match excluded_dirs {
            Some(patterns) => {
                match build_excluder(patterns) {
                    Ok(a) => Some(a),
                    Err(e) => {
                        return Err(TmsError::IoError);
                    },
                }
            },
            None => None,
        };
        Ok(DiscoveryEngine { to_search: search_dirs, excluder, repos: StrMap::new() })
    }

    /// Law (exclusion containment): pops queued paths until
    /// one is not excluded and hands it out for probing. A path whose full
    /// string contains an exclusion literal is discarded here, before it
    /// is ever opened; since descent only happens through `on_probe` of a
    /// handed-out path, an excluded path is never opened and never
    /// descended into.
    pub fn next_path(&mut self) -> (r: Option<SearchDirectory>)
        requires
            old(self).repos.wf(),
        ensures
            final(self).repos == old(self).repos,
            final(self).excluder == old(self).excluder,
            final(self).repos.wf(),
            match r {
                Some(d) => {
                    &&& !is_excluded_by(d.path@, old(self).exclusions())
                    &&& exists|k: int|
                        {
                            &&& 0 <= k < old(self).to_search@.len()
                            &&& #[trigger] old(self).to_search@[k] == d
                            &&& final(self).to_search@ == old(self).to_search@.skip(k + 1)
                            &&& forall|j: int|
                                0 <= j < k ==> is_excluded_by(
                                    (#[trigger] old(self).to_search@[j]).path@,
                                    old(self).exclusions(),
                                )
                        }
                },
                None => {
                    &&& final(self).to_search@.len() == 0
                    &&& forall|j: int|
                        0 <= j < old(self).to_search@.len() ==> is_excluded_by(
                            (#[trigger] old(self).to_search@[j]).path@,
                            old(self).exclusions(),
                        )
                },
            },
    {
        let ghost oldq = self.to_search@;
        let ghost excl = self.exclusions();
        loop
            invariant
                oldq == old(self).to_search@,
                excl == old(self).exclusions(),
                self.repos == old(self).repos,
                self.repos.wf(),
                self.excluder == old(self).excluder,
                excl == self.exclusions(),
                self.to_search@.len() <= oldq.len(),
                self.to_search@ == oldq.skip(oldq.len() - self.to_search@.len()),
                forall|j: int|
                    0 <= j < oldq.len() - self.to_search@.len() ==> is_excluded_by(
                        (#[trigger] oldq[j]).path@,
                        excl,
                    ),
            decreases self.to_search@.len(),
        {
            let ghost k = oldq.len() - self.to_search@.len();
            if self.to_search.len() == 0 {
                return None;
            }
            let d = self.to_search.remove(0);
            proof {
                assert(d == oldq[k]);
                assert(self.to_search@ =~= oldq.skip(k + 1));
            }
            let excluded = match &self.excluder {
                Some(a) => excluder_matches(a, &d.path),
                None => false,
            };
            if !excluded {
                proof {
                    assert(old(self).to_search@[k] == d);
                    assert(forall|j: int|
                        0 <= j < k ==> is_excluded_by(
                            (#[trigger] old(self).to_search@[j]).path@,
                            old(self).exclusions(),
                        ));
                }
                return Some(d);
            }
        }
    }

    /// Feeds the engine what probing one handed-out path found. A
    /// repository that is not a worktree checkout becomes a candidate
    /// under its basename; a plain directory is descended into while the
    /// remaining depth allows; permission problems skip the subtree; any
    /// other read failure is fatal.
    pub fn on_probe(&mut self, dir: SearchDirectory, outcome: ProbeOutcome) -> (r: Result<
        (),
        TmsError,
    >)
        requires
            old(self).repos.wf(),
        ensures
            final(self).repos.wf(),
            final(self).excluder == old(self).excluder,
            match outcome {
                ProbeOutcome::Repository { worktree } => {
                    &&& final(self).to_search == old(self).to_search
                    &&& (worktree ==> r is Ok && final(self).repos == old(self).repos)
                    &&& (!worktree ==> {
                        let comps = path_components(dir.path@);
                        &&& (r is Err <==> comps.len() == 0)
                        &&& (r is Err ==> r == Result::<(), TmsError>::Err(TmsError::GitError)
                            && final(self).repos == old(self).repos)
                        &&& (r is Ok ==> {
                            let nm = comps.last();
                            &&& final(self).repos.view_map().contains_key(nm)
                            &&& final(self).repos.view_map()[nm]@.len() > 0
                            &&& ({
                                let s = final(self).repos.view_map()[nm]@.last();
                                s.name@ == nm && s.path@ == dir.path@ && s.session_type
                                    == SessionType::Git
                            })
                            &&& (old(self).repos.view_map().contains_key(nm) ==> final(self).repos.view_map()[nm]@ == old(self).repos.view_map()[nm]@.push(
                                final(self).repos.view_map()[nm]@.last(),
                            ))
                            &&& (!old(self).repos.view_map().contains_key(nm) ==> final(self).repos.view_map()[nm]@.len() == 1)
                            &&& forall|key: Seq<char>|
                                key != nm ==> #[trigger] final(self).repos.view_map().contains_key(
                                    key,
                                ) == old(self).repos.view_map().contains_key(key) && (old(self).repos.view_map().contains_key(key) ==> final(self).repos.view_map()[key] == old(self).repos.view_map()[key])
                        })
                    })
                },
                ProbeOutcome::Directory { children } => {
                    &&& r is Ok
                    &&& final(self).repos == old(self).repos
                    &&& (dir.depth == 0 ==> final(self).to_search == old(self).to_search)
                    &&& (dir.depth > 0 ==> {
                        &&& final(self).to_search@.len() == old(self).to_search@.len()
                            + children@.len()
                        &&& final(self).to_search@.take(old(self).to_search@.len() as int) == old(self).to_search@
                        &&& forall|i: int|
                            0 <= i < children@.len() ==> {
                                let nd = #[trigger] final(self).to_search@[old(self).to_search@.len() + i];
                                nd.path@ == children@[i]@ && nd.depth == dir.depth - 1
                            }
                    })
                },
                ProbeOutcome::NotDirectory => r is Ok && final(self).repos == old(self).repos
                    && final(self).to_search == old(self).to_search,
                ProbeOutcome::PermissionDenied => r is Ok && final(self).repos == old(self).repos
                    && final(self).to_search == old(self).to_search,
                ProbeOutcome::ReadError => r == Result::<(), TmsError>::Err(TmsError::IoError)
                    && final(self).repos == old(self).repos && final(self).to_search == old(self).to_search,
            },
    {
        match outcome {
            ProbeOutcome::Repository { worktree } => {
                if worktree {
                    return Ok(());
                }
                let name = match basename(dir.path.as_str()) {
                    Some(n) => n,
                    None => {
                        return Err(TmsError::GitError);
                    },
                };
                let session = Session::new(name.clone(), dir.path, SessionType::Git);
                self.repos.push_value(name, session);
                Ok(())
            },
            ProbeOutcome::Directory { mut children } => {
                if dir.depth == 0 {
                    return Ok(());
                }
                let ghost oldq = self.to_search@;
                let ghost kids = children@;
                let total = children.len();
                let depth = dir.depth - 1;
                let mut i: usize = 0;
                while children.len() > 0
                    invariant
                        total == kids.len(),
                        i + children@.len() == total,
                        children@ == kids.skip(i as int),
                        self.repos == old(self).repos,
                        self.repos.wf(),
                        self.excluder == old(self).excluder,
                        self.to_search@.len() == oldq.len() + i,
                        self.to_search@.take(oldq.len() as int) == oldq,
                        forall|j: int|
                            0 <= j < i ==> {
                                let nd = #[trigger] self.to_search@[oldq.len() + j];
                                nd.path@ == kids[j]@ && nd.depth == depth
                            },
                    decreases children@.len(),
                {
                    let child = children.remove(0);
                    proof {
                        assert(child == kids[i as int]);
                        assert(children@ =~= kids.skip(i as int + 1));
                    }
                    let ghost pre = self.to_search@;
                    self.to_search.push(SearchDirectory { path: child, depth });
                    i = i + 1;
                    proof {
                        assert(self.to_search@.take(oldq.len() as int) =~= oldq);
                    }
                }
                Ok(())
            },
            ProbeOutcome::NotDirectory => Ok(()),
            ProbeOutcome::PermissionDenied => Ok(()),
            ProbeOutcome::ReadError => Err(TmsError::IoError),
        }
    }

    /// Hands the collision groups over for deduplication and cataloguing.
    pub fn finish(self) -> (r: StrMap<Vec<Session>>)
        ensures
            r == self.repos,
    {
        self.repos
    }
}

/// One submodule of `parent_name` during the submodule walk: skip it when
/// its path was already visited (the cycle guard), else hand back its
/// composed display name and whether to walk into it, which is exactly the
/// recursive-submodules setting.
pub fn submodule_step(
    parent_name: &str,
    child_basename: &str,
    child_path: &String,
    visited: &Vec<String>,
    recursive: bool,
) -> (r: Option<(String, bool)>)
    ensures
        r is None <==> crate::picker::spec_runs(visited@, child_path@),
        r matches Some((name, recurse)) ==> name@ == parent_name@ + seq!['>'] + child_basename@
            && recurse == recursive,
{
    let n = visited.len();
    let mut i: usize = 0;
    while i < n
        invariant
            n == visited@.len(),
            i <= n,
            forall|j: int| 0 <= j < i ==> (#[trigger] visited@[j])@ != child_path@,
        decreases n - i,
    {
        if crate::strutil::str_eq(visited[i].as_str(), child_path.as_str()) {
            proof {
                assert((visited@[i as int])@ == child_path@);
            }
            return None;
        }
        i = i + 1;
    }
    Some((submodule_session_name(parent_name, child_basename), recursive))
}

/// The display name of a submodule candidate: `parent>child`.
pub fn submodule_session_name(parent: &str, child: &str) -> (r: String)
    ensures
        r@ == parent@ + seq!['>'] + child@,
{
    let mut s = parent.to_owned();
    push_char(&mut s, '>');
    s.append(child);
    proof {
        assert(s@ =~= parent@ + seq!['>'] + child@);
    }
    s
}

} // verus!
