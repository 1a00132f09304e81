use vstd::prelude::*;

use crate::strmap::{keys_of, lemma_map_of_contains, lemma_map_of_index, StrMap};
use crate::strutil::{
    components_of, join_range, join_slash, lemma_join_injective, lemma_path_components_wf,
    lex_sorted, path_components, sort_strings, str_eq, wf_components,
};

verus! {

/// What a candidate is: a version-controlled checkout or a plain directory.
#[derive(Clone, Copy, Debug, PartialEq, Eq, Structural)]
pub enum SessionType {
    Git,
    Path,
}

/// One selectable candidate: a display name and the directory it stands for.
#[derive(Debug)]
pub struct Session {
    pub name: String,
    pub path: String,
    pub session_type: SessionType,
}

impl Session {
    pub fn new(name: String, path: String, session_type: SessionType) -> (r: Self)
        ensures
            r.name == name,
            r.path == path,
            r.session_type == session_type,
    {
        Session { name, path, session_type }
    }
}

impl Clone for Session {
    fn clone(&self) -> (r: Self)
        ensures
            r.name@ == self.name@,
            r.path@ == self.path@,
            r.session_type == self.session_type,
    {
        Session { name: self.name.clone(), path: self.path.clone(), session_type: self.session_type }
    }
}

// ---------------------------------------------------------------------------
// The deduplication resolver: mathematical model
// ---------------------------------------------------------------------------

/// The path component at reverse position `d` (0 is the basename).
pub open spec fn rev_at(p: Seq<Seq<char>>, d: int) -> Seq<char> {
    p[p.len() - 1 - d]
}

/// The candidate `cur` agrees with some still-remaining candidate at reverse
/// position `d`.
pub open spec fn matches_at(cur: Seq<Seq<char>>, others: Seq<Seq<Seq<char>>>, d: int) -> bool {
    0 <= d < cur.len() && exists|j: int|
        0 <= j < others.len() && d < (#[trigger] others[j]).len() && rev_at(others[j], d) == rev_at(
            cur,
            d,
        )
}

/// The probe, continued from depth `d`: keeps increasing the depth while some
/// remaining candidate still agrees at that depth.
pub open spec fn probe_from(cur: Seq<Seq<char>>, others: Seq<Seq<Seq<char>>>, d: int) -> int
    decreases cur.len() - d,
{
    if matches_at(cur, others, d) {
        probe_from(cur, others, d + 1)
    } else {
        d
    }
}

/// The depth the probe of `cur` against `others` reaches, starting at 1
/// (the shared basename itself is never probed).
pub open spec fn probe_depth(cur: Seq<Seq<char>>, others: Seq<Seq<Seq<char>>>) -> int {
    probe_from(cur, others, 1)
}

/// The maximum probe depth over the whole group, where the candidate at
/// position `k` is probed against those before it (candidates are taken from
/// the back of the stack, so position `k` sees `paths[0..k]` as remaining).
/// `group_depth_from(paths, m)` covers positions `m..paths.len()`.
pub open spec fn group_depth_from(paths: Seq<Seq<Seq<char>>>, m: int) -> int
    decreases paths.len() - m,
{
    if m < 0 || m >= paths.len() {
        1
    } else {
        let here = probe_depth(paths[m], paths.take(m));
        let rest = group_depth_from(paths, m + 1);
        if here >= rest {
            here
        } else {
            rest
        }
    }
}

/// The shared relabelling depth of a collision group.
pub open spec fn group_depth(paths: Seq<Seq<Seq<char>>>) -> int {
    group_depth_from(paths, 0)
}

/// The label a candidate receives: its last `depth + 1` path components
/// (or all of them, when the path is shorter), joined with `/`.
pub open spec fn label_of(p: Seq<Seq<char>>, depth: int) -> Seq<char> {
    join_slash(p.skip(if p.len() > depth + 1 {
        p.len() - (depth + 1)
    } else {
        0
    }))
}

/// The component sequences of a group of sessions, in stack order.
pub open spec fn comps_seq(ss: Seq<Session>) -> Seq<Seq<Seq<char>>> {
    ss.map_values(|s: Session| path_components(s.path@))
}

// ---------------------------------------------------------------------------
// Facts about the probe
// ---------------------------------------------------------------------------

/// The probe result is at least its starting depth and the probe stops at a
/// depth where nothing matches any more.
pub proof fn lemma_probe_from_facts(cur: Seq<Seq<char>>, others: Seq<Seq<Seq<char>>>, d: int)
    ensures
        probe_from(cur, others, d) >= d,
        !matches_at(cur, others, probe_from(cur, others, d)),
    decreases cur.len() - d,
{
    if matches_at(cur, others, d) {
        lemma_probe_from_facts(cur, others, d + 1);
    }
}

/// The group depth dominates every candidate's own probe depth.
pub proof fn lemma_group_depth_covers(paths: Seq<Seq<Seq<char>>>, m: int, k: int)
    requires
        0 <= m <= k < paths.len(),
    ensures
        group_depth_from(paths, m) >= probe_depth(paths[k], paths.take(k)),
        group_depth_from(paths, m) >= 1,
    decreases paths.len() - m,
{
    if m < k {
        lemma_group_depth_covers(paths, m + 1, k);
    } else {
        lemma_probe_from_facts(paths[k], paths.take(k), 1);
        if m + 1 < paths.len() {
            lemma_group_depth_covers(paths, m + 1, m + 1);
        }
    }
}

/// The group depth of an empty or nonempty group is at least 1.
pub proof fn lemma_group_depth_min(paths: Seq<Seq<Seq<char>>>, m: int)
    ensures
        group_depth_from(paths, m) >= 1,
    decreases paths.len() - m,
{
    if 0 <= m && m < paths.len() {
        lemma_group_depth_min(paths, m + 1);
        lemma_probe_from_facts(paths[m], paths.take(m), 1);
    }
}

// ---------------------------------------------------------------------------
// Law: distinct candidates receive distinct labels
// ---------------------------------------------------------------------------

/// A suffix of a well-formed component list is well formed.
proof fn lemma_wf_suffix(p: Seq<Seq<char>>, start: int)
    requires
        wf_components(p),
        0 <= start <= p.len(),
    ensures
        wf_components(p.skip(start)),
{
    assert forall|i: int| 0 <= i < p.skip(start).len() implies (#[trigger] p.skip(
        start,
    )[i]).len() > 0 && !p.skip(start)[i].contains('/') by {
        assert(p.skip(start)[i] == p[i + start]);
    }
}

/// Law: within one collision group, two candidates with different component
/// sequences receive different labels at the shared group depth. Together
/// with the resolver's own contract this says the resolver's output labels
/// are pairwise distinct.
pub proof fn lemma_dedup_labels_unique(paths: Seq<Seq<Seq<char>>>, i: int, j: int)
    requires
        0 <= j < i < paths.len(),
        paths[i] != paths[j],
        wf_components(paths[i]),
        wf_components(paths[j]),
    ensures
        label_of(paths[i], group_depth(paths)) != label_of(paths[j], group_depth(paths)),
{
    let a = paths[i];
    let b = paths[j];
    let gd = group_depth(paths);
    let d = probe_depth(a, paths.take(i));
    lemma_group_depth_covers(paths, 0, i);
    lemma_probe_from_facts(a, paths.take(i), 1);
    assert(gd >= d && d >= 1);
    assert(!matches_at(a, paths.take(i), d));

    let starta = if a.len() > gd + 1 {
        a.len() - (gd + 1)
    } else {
        0
    };
    let startb = if b.len() > gd + 1 {
        b.len() - (gd + 1)
    } else {
        0
    };
    let sufa = a.skip(starta as int);
    let sufb = b.skip(startb as int);
    if label_of(a, gd) == label_of(b, gd) {
        lemma_wf_suffix(a, starta);
        lemma_wf_suffix(b, startb);
        lemma_join_injective(sufa, sufb);
        assert(sufa == sufb);
        let k = sufa.len();
        if a.len() > d {
            // the probe stopped because nothing remaining agreed at depth d
            assert(k >= d + 1);
            assert(sufb.len() == k);
            assert(b.len() >= k);
            // position d from the back lies inside both suffixes
            assert(sufa[k - 1 - d] == a[starta + k - 1 - d]);
            assert(starta + k == a.len());
            assert(sufa[k - 1 - d] == rev_at(a, d));
            assert(sufb[k - 1 - d] == b[startb + k - 1 - d]);
            assert(startb + k == b.len());
            assert(sufb[k - 1 - d] == rev_at(b, d));
            assert(rev_at(a, d) == rev_at(b, d));
            assert(paths.take(i)[j] == b);
            assert(d < b.len());
            assert(matches_at(a, paths.take(i), d));
            assert(false);
        } else {
            // the probe ran past the top of a's path
            assert(a.len() <= d <= gd);
            assert(starta == 0);
            assert(sufa =~= a);
            assert(k == a.len());
            if b.len() == a.len() {
                assert(startb == 0);
                assert(sufb =~= b);
                assert(a == b);
                assert(false);
            } else if b.len() > a.len() {
                // then b's suffix would have to be longer than a's
                assert(sufb.len() == if b.len() > gd + 1 {
                    gd + 1
                } else {
                    b.len() as int
                });
                assert(sufb.len() > a.len());
                assert(false);
            } else {
                assert(sufb.len() <= b.len() < a.len() == k);
                assert(false);
            }
        }
    }
}

/// Law: the resolver's output labels are pairwise distinct. Two sessions of
/// one collision group whose paths differ in their component sequences are
/// assigned different names by `deduplicate_sessions` (whose contract names
/// every output label `dedup_label`).
pub proof fn lemma_dedup_output_unique(orig: Seq<Session>, i: int, j: int)
    requires
        0 <= i < orig.len(),
        0 <= j < orig.len(),
        i != j,
        path_components(orig[i].path@) != path_components(orig[j].path@),
    ensures
        dedup_label(orig[i].path@, orig) != dedup_label(orig[j].path@, orig),
{
    lemma_path_components_wf(orig[i].path@);
    lemma_path_components_wf(orig[j].path@);
    let paths = comps_seq(orig);
    assert(paths[i] == path_components(orig[i].path@));
    assert(paths[j] == path_components(orig[j].path@));
    if i > j {
        lemma_dedup_labels_unique(paths, i, j);
    } else {
        lemma_dedup_labels_unique(paths, j, i);
    }
}

/// A canonical absolute path: a leading `/`, then the path's non-empty
/// components joined with single slashes. Canonicalized paths, which the
/// surrounding application feeds into discovery, have this form.
pub open spec fn is_canonical_path(s: Seq<char>) -> bool {
    s == seq!['/'] + join_slash(path_components(s))
}

/// Law: for canonical absolute paths, distinct path strings have distinct
/// component sequences, so the resolver's output labels are pairwise
/// distinct whenever the full paths differ. (Without the canonical form
/// two different strings can split to the same components — `/a/b` and
/// `a//b` — and then necessarily share a label.)
pub proof fn lemma_dedup_output_unique_paths(orig: Seq<Session>, i: int, j: int)
    requires
        0 <= i < orig.len(),
        0 <= j < orig.len(),
        i != j,
        is_canonical_path(orig[i].path@),
        is_canonical_path(orig[j].path@),
        orig[i].path@ != orig[j].path@,
    ensures
        dedup_label(orig[i].path@, orig) != dedup_label(orig[j].path@, orig),
{
    if path_components(orig[i].path@) == path_components(orig[j].path@) {
        assert(orig[i].path@ == orig[j].path@);
        assert(false);
    }
    lemma_dedup_output_unique(orig, i, j);
}

// ---------------------------------------------------------------------------
// The deduplication resolver: executable code
// ---------------------------------------------------------------------------

/// The exact name the resolver assigns to a session with path `p`, given the
/// original stack of colliding sessions.
pub open spec fn dedup_label(p: Seq<char>, orig: Seq<Session>) -> Seq<char> {
    label_of(path_components(p), group_depth(comps_seq(orig)))
}

/// Probes one candidate against the remaining stack: the smallest depth at
/// or above 1 at which no remaining candidate's path agrees with `cur`.
fn probe_session(cur_comps: &Vec<String>, remaining: &Vec<Session>) -> (d: usize)
    ensures
        d == probe_depth(
            cur_comps@.map_values(|x: String| x@),
            comps_seq(remaining@),
        ),
        d >= 1,
{
    let ghost cc = cur_comps@.map_values(|x: String| x@);
    let ghost others = comps_seq(remaining@);
    let mut d: usize = 1;
    proof {
        lemma_probe_from_facts(cc, others, 1);
    }
    loop
        invariant
            1 <= d,
            d <= cc.len() + 1,
            cc == cur_comps@.map_values(|x: String| x@),
            others == comps_seq(remaining@),
            probe_from(cc, others, 1) == probe_from(cc, others, d as int),
        decreases cc.len() + 1 - d,
    {
        if d >= cur_comps.len() {
            proof {
                assert(!matches_at(cc, others, d as int));
            }
            return d;
        }
        let cur_str = &cur_comps[cur_comps.len() - 1 - d];
        proof {
            assert(cur_str@ == rev_at(cc, d as int));
        }
        let mut found = false;
        let mut j: usize = 0;
        while j < remaining.len() && !found
            invariant
                j <= remaining@.len(),
                cc == cur_comps@.map_values(|x: String| x@),
                others == comps_seq(remaining@),
                0 <= (d as int) < cc.len(),
                cur_str@ == rev_at(cc, d as int),
                found ==> matches_at(cc, others, d as int),
                !found ==> forall|j2: int|
                    0 <= j2 < j ==> !((d as int) < (#[trigger] others[j2]).len() && rev_at(
                        others[j2],
                        d as int,
                    ) == rev_at(cc, d as int)),
            decreases remaining@.len() - j + (if found {
                0int
            } else {
                1int
            }),
        {
            let other_comps = components_of(remaining[j].path.as_str());
            proof {
                assert(other_comps@.map_values(|x: String| x@) == others[j as int]);
            }
            let mut here = false;
            if other_comps.len() > d {
                let other_str = &other_comps[other_comps.len() - 1 - d];
                proof {
                    assert(other_str@ == rev_at(others[j as int], d as int));
                }
                if str_eq(cur_str.as_str(), other_str.as_str()) {
                    here = true;
                    proof {
                        assert(matches_at(cc, others, d as int));
                    }
                }
            }
            if here {
                found = true;
            } else {
                j = j + 1;
            }
        }
        if found {
            d = d + 1;
        } else {
            proof {
                assert(j == remaining@.len());
                if matches_at(cc, others, d as int) {
                    let jw = choose|jw: int|
                        0 <= jw < others.len() && (d as int) < (#[trigger] others[jw]).len()
                            && rev_at(others[jw], d as int) == rev_at(cc, d as int);
                    assert(false);
                }
            }
            return d;
        }
    }
}

/// The deduplication resolver. Pops each session off the stack, probes it
/// against the sessions still on the stack to find the depth at which its
/// path stops agreeing with any of them, and finally relabels every session
/// with its last `max probe depth + 1` path components joined by `/`, so all
/// labels in the group show the same number of segments.
///
/// The input stack is drained; the result holds the same sessions in pop
/// (reverse) order, each renamed to its computed label.
pub fn deduplicate_sessions(duplicate_sessions: &mut Vec<Session>) -> (r: Vec<Session>)
    ensures
        final(duplicate_sessions)@.len() == 0,
        r@.len() == old(duplicate_sessions)@.len(),
        forall|k: int|
            0 <= k < r@.len() ==> {
                let orig = old(duplicate_sessions)@[old(duplicate_sessions)@.len() - 1 - k];
                (#[trigger] r@[k]).path@ == orig.path@ && r@[k].session_type == orig.session_type
                    && r@[k].name@ == dedup_label(orig.path@, old(duplicate_sessions)@)
            },
{
    let ghost orig = duplicate_sessions@;
    let ghost all_comps = comps_seq(orig);
    let mut deduplicated: Vec<Session> = Vec::new();
    let mut depth: usize = 1;
    proof {
        assert(orig.take(orig.len() as int) =~= orig);
        lemma_group_depth_min(all_comps, orig.len() as int);
    }
    while duplicate_sessions.len() > 0
        invariant
            duplicate_sessions@ =~= orig.take(duplicate_sessions@.len() as int),
            duplicate_sessions@.len() + deduplicated@.len() == orig.len(),
            depth as int == group_depth_from(all_comps, duplicate_sessions@.len() as int),
            all_comps == comps_seq(orig),
            forall|k: int|
                0 <= k < deduplicated@.len() ==> #[trigger] deduplicated@[k] == orig[orig.len() - 1
                    - k],
        decreases duplicate_sessions@.len(),
    {
        let ghost m = duplicate_sessions@.len() as int;
        let current_session = duplicate_sessions.pop().unwrap();
        proof {
            assert(current_session == orig[m - 1]);
            assert(duplicate_sessions@ =~= orig.take(m - 1));
        }
        let cur_comps = components_of(current_session.path.as_str());
        proof {
            assert(cur_comps@.map_values(|x: String| x@) == all_comps[m - 1]);
            assert(comps_seq(duplicate_sessions@) =~= all_comps.take(m - 1));
        }
        let current_depth = probe_session(&cur_comps, duplicate_sessions);
        deduplicated.push(current_session);
        if current_depth > depth {
            depth = current_depth;
        }
        proof {
            assert(group_depth_from(all_comps, m - 1) == if probe_depth(
                all_comps[m - 1],
                all_comps.take(m - 1),
            ) >= group_depth_from(all_comps, m) {
                probe_depth(all_comps[m - 1], all_comps.take(m - 1))
            } else {
                group_depth_from(all_comps, m)
            });
        }
    }
    proof {
        assert(depth as int == group_depth(all_comps));
    }

    // second pass: relabel every candidate with the shared number of segments
    let mut result: Vec<Session> = Vec::new();
    let mut k: usize = 0;
    while k < deduplicated.len()
        invariant
            deduplicated@.len() + 0 == orig.len(),
            k <= orig.len(),
            depth as int == group_depth(all_comps),
            all_comps == comps_seq(orig),
            forall|k2: int|
                0 <= k2 < deduplicated@.len() ==> #[trigger] deduplicated@[k2] == orig[orig.len()
                    - 1 - k2],
            result@.len() == k,
            forall|k2: int|
                0 <= k2 < k ==> {
                    let o = orig[orig.len() - 1 - k2];
                    (#[trigger] result@[k2]).path@ == o.path@ && result@[k2].session_type
                        == o.session_type && result@[k2].name@ == dedup_label(o.path@, orig)
                },
        decreases orig.len() - k,
    {
        let comps = components_of(deduplicated[k].path.as_str());
        let ghost p = comps@.map_values(|x: String| x@);
        let start: usize = if comps.len() > depth && comps.len() - depth > 1 {
            comps.len() - depth - 1
        } else {
            0
        };
        proof {
            assert(start as int == if p.len() > depth + 1 {
                p.len() - (depth + 1)
            } else {
                0
            });
            assert(p.subrange(start as int, p.len() as int) =~= p.skip(start as int));
        }
        let name = join_range(&comps, start, comps.len());
        proof {
            assert(name@ == label_of(p, depth as int));
        }
        let session = &deduplicated[k];
        result.push(
            Session {
                name,
                path: session.path.clone(),
                session_type: session.session_type,
            },
        );
        k = k + 1;
    }
    result
}

// ---------------------------------------------------------------------------
// Law: the resolver leaves already-resolved labels alone
// ---------------------------------------------------------------------------

/// Law: the resolver's labels are a pure function of a candidate's path and
/// the group's shared depth. Hence re-running the resolver on its own output
/// (whose stack order is the reverse of the original) assigns every session
/// the name it already carries, provided the re-run reaches the same group
/// depth. (Groups exist whose re-run probes deeper; for those the second
/// pass lengthens the labels and idempotence fails, so that case is excluded
/// here.)
pub proof fn lemma_dedup_idempotent(first: Seq<Session>, relabeled: Seq<Session>)
    requires
        relabeled.len() == first.len(),
        forall|k: int|
            0 <= k < relabeled.len() ==> (#[trigger] relabeled[k]).path@ == first[first.len() - 1
                - k].path@ && relabeled[k].name@ == dedup_label(
                first[first.len() - 1 - k].path@,
                first,
            ),
        group_depth(comps_seq(relabeled)) == group_depth(comps_seq(first)),
    ensures
        forall|k: int|
            0 <= k < relabeled.len() ==> (#[trigger] relabeled[k]).name@ == dedup_label(
                relabeled[k].path@,
                relabeled,
            ),
{
    assert forall|k: int| 0 <= k < relabeled.len() implies (#[trigger] relabeled[k]).name@
        == dedup_label(relabeled[k].path@, relabeled) by {
        assert(relabeled[k].path@ == first[first.len() - 1 - k].path@);
    }
}

// ---------------------------------------------------------------------------
// Session containers
// ---------------------------------------------------------------------------

/// A unique-keyed collection of sessions: the candidate catalog.
pub trait SessionContainer {
    /// Internal consistency of the container.
    spec fn inv(&self) -> bool;

    /// The catalog as a mathematical map from display name to session.
    spec fn catalog(&self) -> Map<Seq<char>, Session>;

    /// The display names, in insertion order.
    spec fn names(&self) -> Seq<Seq<char>>;

    /// Looks a session up by its display name.
    fn find_session(&self, name: &str) -> (r: Option<&Session>)
        requires
            self.inv(),
        ensures
            match r {
                Some(s) => self.catalog().contains_key(name@) && *s == self.catalog()[name@],
                None => !self.catalog().contains_key(name@),
            },
    ;

    /// Inserts a session under a name, replacing any previous holder.
    fn insert_session(&mut self, name: String, session: Session)
        requires
            old(self).inv(),
        ensures
            final(self).inv(),
            final(self).catalog() == old(self).catalog().insert(name@, session),
            final(self).names() == if old(self).names().contains(name@) {
                old(self).names()
            } else {
                old(self).names().push(name@)
            },
    ;

    /// Every display name, sorted lexicographically.
    fn list(&self) -> (r: Vec<String>)
        requires
            self.inv(),
        ensures
            lex_sorted(r@.map_values(|x: String| x@)),
            r@.map_values(|x: String| x@).to_multiset() == self.names().to_multiset(),
    ;
}

/// The concrete catalog: an insertion-ordered unique-keyed map.
pub type SessionMap = StrMap<Session>;

impl SessionContainer for StrMap<Session> {
    open spec fn inv(&self) -> bool {
        self.wf()
    }

    open spec fn catalog(&self) -> Map<Seq<char>, Session> {
        self.view_map()
    }

    open spec fn names(&self) -> Seq<Seq<char>> {
        self.key_seq()
    }

    fn find_session(&self, name: &str) -> (r: Option<&Session>) {
        self.get(name)
    }

    fn insert_session(&mut self, name: String, session: Session) {
        proof {
            crate::strmap::lemma_map_of_contains(self.entry_seq(), name@);
        }
        self.insert(name, session);
    }

    fn list(&self) -> (r: Vec<String>) {
        sort_strings(self.keys())
    }
}

// ---------------------------------------------------------------------------
// Building the catalog from collision groups
// ---------------------------------------------------------------------------

/// The view of a session: name, path and kind.
pub open spec fn sview(s: Session) -> (Seq<char>, Seq<char>, SessionType) {
    (s.name@, s.path@, s.session_type)
}

/// A catalog with its sessions abstracted to views.
pub open spec fn catalog_views(m: Map<Seq<char>, Session>) -> Map<
    Seq<char>,
    (Seq<char>, Seq<char>, SessionType),
> {
    Map::new(|k: Seq<char>| m.contains_key(k), |k: Seq<char>| sview(m[k]))
}

/// The key a session is shown under: its full path when `full` is set, its
/// name otherwise.
pub open spec fn visible_key(name: Seq<char>, path: Seq<char>, full: bool) -> Seq<char> {
    if full {
        path
    } else {
        name
    }
}

/// The effect, on the view of the catalog, of inserting every relabelled
/// member of one collision group, in pop order, starting at member `k`.
pub open spec fn group_fold_views(
    m: Map<Seq<char>, (Seq<char>, Seq<char>, SessionType)>,
    orig: Seq<Session>,
    full: bool,
    k: int,
) -> Map<Seq<char>, (Seq<char>, Seq<char>, SessionType)>
    decreases orig.len() - k,
{
    if k < 0 || k >= orig.len() {
        m
    } else {
        let s = orig[orig.len() - 1 - k];
        let label = dedup_label(s.path@, orig);
        group_fold_views(
            m.insert(visible_key(label, s.path@, full), (label, s.path@, s.session_type)),
            orig,
            full,
            k + 1,
        )
    }
}

/// The effect of one collision group on the view of the catalog: a lone
/// member keeps its name, a real collision group is relabelled first.
pub open spec fn group_views(
    m: Map<Seq<char>, (Seq<char>, Seq<char>, SessionType)>,
    group: Seq<Session>,
    full: bool,
) -> Map<Seq<char>, (Seq<char>, Seq<char>, SessionType)> {
    if group.len() == 1 {
        let s = group[0];
        m.insert(visible_key(s.name@, s.path@, full), sview(s))
    } else {
        group_fold_views(m, group, full, 0)
    }
}

/// The whole catalog build, group by group in catalog order.
pub open spec fn generate_views(
    m: Map<Seq<char>, (Seq<char>, Seq<char>, SessionType)>,
    groups: Seq<(String, Vec<Session>)>,
    full: bool,
) -> Map<Seq<char>, (Seq<char>, Seq<char>, SessionType)>
    decreases groups.len(),
{
    if groups.len() == 0 {
        m
    } else {
        generate_views(group_views(m, groups[0].1@, full), groups.skip(1), full)
    }
}

/// Files one session into the catalog under its visible name.
pub fn insert_session(sessions: &mut SessionMap, session: Session, display_full_path: bool)
    requires
        old(sessions).wf(),
    ensures
        final(sessions).wf(),
        catalog_views(final(sessions).view_map()) == catalog_views(
            old(sessions).view_map(),
        ).insert(
            visible_key(session.name@, session.path@, display_full_path),
            sview(session),
        ),
{
    let visible_name = if display_full_path {
        session.path.clone()
    } else {
        session.name.clone()
    };
    let ghost pre = sessions.view_map();
    let ghost vis = visible_name@;
    let ghost sv = sview(session);
    sessions.insert_session(visible_name, session);
    proof {
        assert(catalog_views(sessions.view_map()) =~= catalog_views(pre).insert(vis, sv));
    }
}

/// Turns the discovery engine's collision groups into the unique-keyed
/// candidate catalog: lone candidates keep their names, colliding groups go
/// through the deduplication resolver first.
pub fn generate_session_container(
    sessions: StrMap<Vec<Session>>,
    display_full_path: bool,
) -> (r: SessionMap)
    requires
        sessions.wf(),
    ensures
        r.wf(),
        catalog_views(r.view_map()) == generate_views(
            catalog_views(Map::empty()),
            sessions.entry_seq(),
            display_full_path,
        ),
{
    let ghost all = sessions.entry_seq();
    let mut groups = sessions;
    let mut ret: SessionMap = StrMap::new();
    proof {
        assert(catalog_views(ret.view_map()) =~= catalog_views(Map::empty()));
        assert(all.skip(0) =~= all);
    }
    while groups.len() > 0
        invariant
            groups.wf(),
            ret.wf(),
            groups.entry_seq().len() <= all.len(),
            groups.entry_seq() == all.skip(all.len() - groups.entry_seq().len()),
            generate_views(catalog_views(ret.view_map()), groups.entry_seq(), display_full_path)
                == generate_views(catalog_views(Map::empty()), all, display_full_path),
        decreases groups.entry_seq().len(),
    {
        let ghost pre_groups = groups.entry_seq();
        let entry = groups.pop_first().unwrap();
        let (_name, mut list) = entry;
        proof {
            assert(groups.entry_seq() =~= pre_groups.skip(1));
            assert(groups.entry_seq() =~= all.skip(all.len() - groups.entry_seq().len()));
            assert(pre_groups[0] == all[all.len() - pre_groups.len()]);
        }
        let ghost group0 = list@;
        let ghost pre_cv = catalog_views(ret.view_map());
        if list.len() == 1 {
            let session = list.pop().unwrap();
            proof {
                assert(group0[0] == session);
            }
            insert_session(&mut ret, session, display_full_path);
            proof {
                assert(catalog_views(ret.view_map()) == group_views(
                    pre_cv,
                    group0,
                    display_full_path,
                ));
            }
        } else {
            let deduplicated = deduplicate_sessions(&mut list);
            let ghost dd = deduplicated@;
            let mut i: usize = 0;
            while i < deduplicated.len()
                invariant
                    ret.wf(),
                    i <= dd.len(),
                    deduplicated@ == dd,
                    dd.len() == group0.len(),
                    forall|k: int|
                        0 <= k < dd.len() ==> {
                            let orig = group0[group0.len() - 1 - k];
                            (#[trigger] dd[k]).path@ == orig.path@ && dd[k].session_type
                                == orig.session_type && dd[k].name@ == dedup_label(
                                orig.path@,
                                group0,
                            )
                        },
                    group_fold_views(
                        catalog_views(ret.view_map()),
                        group0,
                        display_full_path,
                        i as int,
                    ) == group_fold_views(pre_cv, group0, display_full_path, 0),
                decreases dd.len() - i,
            {
                let ghost step_cv = catalog_views(ret.view_map());
                let session = &deduplicated[i];
                let s2 = Session {
                    name: session.name.clone(),
                    path: session.path.clone(),
                    session_type: session.session_type,
                };
                proof {
                    let orig = group0[group0.len() - 1 - i];
                    assert(sview(s2) == (
                        dedup_label(orig.path@, group0),
                        orig.path@,
                        orig.session_type,
                    ));
                }
                insert_session(&mut ret, s2, display_full_path);
                i = i + 1;
                proof {
                    assert(group_fold_views(
                        catalog_views(ret.view_map()),
                        group0,
                        display_full_path,
                        i as int,
                    ) == group_fold_views(step_cv, group0, display_full_path, i - 1));
                }
            }
            proof {
                assert(catalog_views(ret.view_map()) == group_fold_views(
                    pre_cv,
                    group0,
                    display_full_path,
                    0,
                ));
                assert(catalog_views(ret.view_map()) == group_views(
                    pre_cv,
                    group0,
                    display_full_path,
                ));
            }
        }
        proof {
            assert(generate_views(
                catalog_views(ret.view_map()),
                groups.entry_seq(),
                display_full_path,
            ) == generate_views(pre_cv, pre_groups, display_full_path));
        }
    }
    proof {
        assert(groups.entry_seq().len() == 0);
    }
    ret
}

// ---------------------------------------------------------------------------
// Merging collision-group maps
// ---------------------------------------------------------------------------

/// Merges two collision-group maps: keys found in both keep `map1`'s
/// sessions first, then `map2`'s; keys found in only one are carried over.
pub fn merge_session_maps(map1: StrMap<Vec<Session>>, map2: StrMap<Vec<Session>>) -> (r: StrMap<
    Vec<Session>,
>)
    requires
        map1.wf(),
        map2.wf(),
    ensures
        r.wf(),
        forall|k: Seq<char>|
            map1.view_map().contains_key(k) && map2.view_map().contains_key(k)
                ==> #[trigger] r.view_map().contains_key(k) && r.view_map()[k]@
                == map1.view_map()[k]@ + map2.view_map()[k]@,
        forall|k: Seq<char>|
            map1.view_map().contains_key(k) && !map2.view_map().contains_key(k)
                ==> #[trigger] r.view_map().contains_key(k) && r.view_map()[k]
                == map1.view_map()[k],
        forall|k: Seq<char>|
            !map1.view_map().contains_key(k) && map2.view_map().contains_key(k)
                && map2.view_map()[k]@.len() > 0 ==> #[trigger] r.view_map().contains_key(k)
                && r.view_map()[k]@ == map2.view_map()[k]@,
        forall|k: Seq<char>|
            !map1.view_map().contains_key(k) && (!map2.view_map().contains_key(k)
                || map2.view_map()[k]@.len() == 0) ==> !(#[trigger] r.view_map().contains_key(
                k,
            )),
{
    let ghost m2all = map2.entry_seq();
    let mut r = map1;
    let mut rest = map2;
    proof {
        assert(m2all.skip(0) =~= m2all);
    }
    while rest.len() > 0
        invariant
            r.wf(),
            rest.wf(),
            rest.entry_seq().len() <= m2all.len(),
            rest.entry_seq() == m2all.skip(m2all.len() - rest.entry_seq().len()),
            forall|a: int, b: int|
                0 <= a < b < m2all.len() ==> (#[trigger] m2all[a]).0@ != (#[trigger] m2all[b]).0@,
            forall|k: Seq<char>|
                #[trigger] r.view_map().contains_key(k) <==> map1.view_map().contains_key(k) || (
                exists|idx: int|
                    0 <= idx < m2all.len() - rest.entry_seq().len() && (#[trigger] m2all[idx]).0@
                        == k && m2all[idx].1@.len() > 0),
            forall|idx: int|
                0 <= idx < m2all.len() - rest.entry_seq().len() ==> {
                    let k = (#[trigger] m2all[idx]).0@;
                    (map1.view_map().contains_key(k) ==> r.view_map()[k]@
                        == map1.view_map()[k]@ + m2all[idx].1@) && (!map1.view_map().contains_key(
                        k,
                    ) && m2all[idx].1@.len() > 0 ==> r.view_map()[k]@ == m2all[idx].1@)
                },
            forall|k: Seq<char>|
                map1.view_map().contains_key(k) && !keys_of(m2all).take(
                    m2all.len() - rest.entry_seq().len(),
                ).contains(k) ==> r.view_map().contains_key(k) && #[trigger] r.view_map()[k]
                    == map1.view_map()[k],
        decreases rest.entry_seq().len(),
    {
        let ghost t = m2all.len() - rest.entry_seq().len();
        let entry = rest.pop_first().unwrap();
        let (key, mut vs) = entry;
        proof {
            assert(rest.entry_seq() =~= m2all.skip(t + 1));
            assert((key, vs) == m2all[t]);
            // this key has not been handled yet: later keys in map2 are distinct
            assert(!keys_of(m2all).take(t).contains(key@)) by {
                if keys_of(m2all).take(t).contains(key@) {
                    let w = choose|w: int|
                        0 <= w < t && keys_of(m2all).take(t)[w] == key@;
                    assert(m2all[w].0@ == key@);
                }
            }
        }
        let ghost vs_all = vs@;
        let ghost r_pre = r.view_map();
        let ghost had = r_pre.contains_key(key@);
        let ghost base: Seq<Session> = if had {
            r_pre[key@]@
        } else {
            Seq::empty()
        };
        proof {
            // restate the loop facts over the snapshot, so they survive the
            // mutation of `r` below
            assert forall|k: Seq<char>| #[trigger] r_pre.contains_key(k) == (
            map1.view_map().contains_key(k) || (exists|idx: int|
                0 <= idx < t && (#[trigger] m2all[idx]).0@ == k && m2all[idx].1@.len()
                    > 0)) by {
                assert(r.view_map().contains_key(k) == r_pre.contains_key(k));
            }
            assert forall|k: Seq<char>|
                map1.view_map().contains_key(k) && !keys_of(m2all).take(t).contains(
                    k,
                ) implies r_pre.contains_key(k) && #[trigger] r_pre[k]
                == map1.view_map()[k] by {
                assert(r.view_map().contains_key(k) == r_pre.contains_key(k));
                assert(r.view_map()[k] == r_pre[k]);
            }
            assert forall|idx: int| 0 <= idx < t implies {
                let k = (#[trigger] m2all[idx]).0@;
                (map1.view_map().contains_key(k) ==> r_pre[k]@ == map1.view_map()[k]@
                    + m2all[idx].1@) && (!map1.view_map().contains_key(k) && m2all[idx].1@.len()
                    > 0 ==> r_pre[k]@ == m2all[idx].1@)
            } by {
                let k = m2all[idx].0@;
                assert(r.view_map().contains_key(k) == r_pre.contains_key(k));
                assert(r.view_map()[k] == r_pre[k]);
            }
        }
        let total = vs.len();
        let mut pushed: usize = 0;
        while vs.len() > 0
            invariant
                r.wf(),
                total == vs_all.len(),
                pushed + vs@.len() == total,
                vs@ == vs_all.skip(pushed as int),
                had == r_pre.contains_key(key@),
                base == if had {
                    r_pre[key@]@
                } else {
                    Seq::<Session>::empty()
                },
                pushed == 0 ==> r.view_map() == r_pre,
                pushed > 0 ==> r.view_map().contains_key(key@) && r.view_map()[key@]@ == base
                    + vs_all.take(pushed as int),
                forall|k: Seq<char>|
                    k != key@ ==> (#[trigger] r.view_map().contains_key(k)
                        == r_pre.contains_key(k)) && (r_pre.contains_key(k) ==> r.view_map()[k]
                        == r_pre[k]),
            decreases vs@.len(),
        {
            let v = vs.remove(0);
            proof {
                assert(v == vs_all[pushed as int]);
            }
            r.push_value(key.clone(), v);
            pushed = pushed + 1;
            proof {
                assert(vs@ =~= vs_all.skip(pushed as int));
                if pushed == 1 {
                    if !had {
                        assert(base + vs_all.take(1) =~= seq![v]);
                    } else {
                        assert(base + vs_all.take(1) =~= base.push(v));
                    }
                } else {
                    assert(base + vs_all.take(pushed as int) =~= (base + vs_all.take(
                        pushed as int - 1,
                    )).push(v));
                }
            }
        }
        proof {
            if vs_all.len() == 0 {
                assert(r.view_map() == r_pre);
            } else {
                assert(vs_all.take(vs_all.len() as int) =~= vs_all);
                assert(r.view_map().contains_key(key@) && r.view_map()[key@]@ == base + vs_all);
            }
            // the prior invariant clauses carry to prefix length t + 1
            assert(m2all.len() - rest.entry_seq().len() == t + 1);
            assert(keys_of(m2all).take(t + 1) =~= keys_of(m2all).take(t).push(key@));
            assert forall|k: Seq<char>| #[trigger] r.view_map().contains_key(k) implies (
            map1.view_map().contains_key(k) || (exists|idx: int|
                0 <= idx < t + 1 && (#[trigger] m2all[idx]).0@ == k && m2all[idx].1@.len()
                    > 0)) by {
                if k == key@ {
                    if vs_all.len() > 0 {
                        assert(m2all[t].0@ == k && m2all[t].1@.len() > 0);
                    } else {
                        assert(r_pre.contains_key(k));
                    }
                } else {
                    assert(r_pre.contains_key(k));
                }
            }
            assert forall|k: Seq<char>| (map1.view_map().contains_key(k) || (exists|idx: int|
                0 <= idx < t + 1 && (#[trigger] m2all[idx]).0@ == k && m2all[idx].1@.len()
                    > 0)) implies #[trigger] r.view_map().contains_key(k) by {
                if k == key@ {
                    if map1.view_map().contains_key(k) && vs_all.len() == 0 {
                        assert(!keys_of(m2all).take(t).contains(k));
                        assert(r_pre.contains_key(k));
                    }
                } else {
                    if map1.view_map().contains_key(k) {
                        assert(r_pre.contains_key(k));
                    } else {
                        let idx = choose|idx: int|
                            0 <= idx < t + 1 && (#[trigger] m2all[idx]).0@ == k
                                && m2all[idx].1@.len() > 0;
                        assert(idx < t);
                        assert(r_pre.contains_key(k));
                    }
                }
            }
            // value clauses for every handled entry
            assert forall|idx: int| 0 <= idx < t + 1 implies {
                let k = (#[trigger] m2all[idx]).0@;
                (map1.view_map().contains_key(k) ==> r.view_map()[k]@ == map1.view_map()[k]@
                    + m2all[idx].1@) && (!map1.view_map().contains_key(k) && m2all[idx].1@.len()
                    > 0 ==> r.view_map()[k]@ == m2all[idx].1@)
            } by {
                let k = m2all[idx].0@;
                if idx < t {
                    assert(k != key@);
                    if map1.view_map().contains_key(k) || m2all[idx].1@.len() > 0 {
                        if !map1.view_map().contains_key(k) {
                            assert(0 <= idx < t && m2all[idx].0@ == k && m2all[idx].1@.len() > 0);
                        }
                        assert(r_pre.contains_key(k));
                        assert(r.view_map().contains_key(k) == r_pre.contains_key(k));
                        assert(r.view_map()[k] == r_pre[k]);
                    }
                } else {
                    assert(k == key@);
                    if map1.view_map().contains_key(key@) {
                        assert(!keys_of(m2all).take(t).contains(key@));
                        assert(r_pre.contains_key(key@) && r_pre[key@] == map1.view_map()[key@]);
                        assert(had && base == map1.view_map()[key@]@);
                        if vs_all.len() > 0 {
                            assert(r.view_map()[key@]@ == map1.view_map()[key@]@ + vs_all);
                        } else {
                            assert(base + vs_all =~= base);
                            assert(r.view_map()[key@]@ == map1.view_map()[key@]@ + vs_all);
                        }
                    } else {
                        if vs_all.len() > 0 {
                            assert(!had) by {
                                if r_pre.contains_key(key@) {
                                    let w = choose|w: int|
                                        0 <= w < t && (#[trigger] m2all[w]).0@ == key@
                                            && m2all[w].1@.len() > 0;
                                    assert(false);
                                }
                            }
                            assert(base =~= Seq::<Session>::empty());
                            assert(base + vs_all =~= vs_all);
                            assert(r.view_map()[key@]@ == vs_all);
                        }
                    }
                }
            }
            // untouched keys that come only from `map1`
            assert forall|k: Seq<char>|
                map1.view_map().contains_key(k) && !keys_of(m2all).take(t + 1).contains(
                    k,
                ) implies r.view_map().contains_key(k) && #[trigger] r.view_map()[k]
                == map1.view_map()[k] by {
                assert(keys_of(m2all).take(t + 1)[t] == key@);
                assert(k != key@);
                assert(!keys_of(m2all).take(t).contains(k)) by {
                    if keys_of(m2all).take(t).contains(k) {
                        let w = choose|w: int|
                            0 <= w < t && keys_of(m2all).take(t)[w] == k;
                        assert(keys_of(m2all).take(t + 1)[w] == k);
                    }
                }
                assert(r_pre.contains_key(k) && r_pre[k] == map1.view_map()[k]);
                assert(r.view_map().contains_key(k) == r_pre.contains_key(k));
                assert(r.view_map()[k] == r_pre[k]);
            }
        }
    }
    proof {
        assert(rest.entry_seq().len() == 0);
        let t_final = m2all.len() as int;
        assert(keys_of(m2all).take(t_final) =~= keys_of(m2all));
        assert forall|k: Seq<char>| #[trigger] map2.view_map().contains_key(k) implies exists|
            idx: int,
        |
            0 <= idx < m2all.len() && (#[trigger] m2all[idx]).0@ == k && map2.view_map()[k]
                == m2all[idx].1 by {
            lemma_map_of_contains(m2all, k);
            let idx = choose|idx: int|
                0 <= idx < keys_of(m2all).len() && keys_of(m2all)[idx] == k;
            assert(m2all[idx].0@ == k);
            lemma_map_of_index(m2all, idx);
        }
        assert forall|k: Seq<char>|
            !map2.view_map().contains_key(k) implies !(exists|idx: int|
            0 <= idx < m2all.len() && (#[trigger] m2all[idx]).0@ == k) by {
            lemma_map_of_contains(m2all, k);
            if exists|idx: int| 0 <= idx < m2all.len() && (#[trigger] m2all[idx]).0@ == k {
                let idx = choose|idx: int|
                    0 <= idx < m2all.len() && (#[trigger] m2all[idx]).0@ == k;
                assert(keys_of(m2all)[idx] == k);
                assert(keys_of(m2all).contains(k));
            }
        }
    }
    r
}

} // verus!
