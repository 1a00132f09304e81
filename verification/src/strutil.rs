use vstd::prelude::*;

verus! {

// ---------------------------------------------------------------------------
// Substring containment
// ---------------------------------------------------------------------------

/// `needle` occurs in `hay` starting at index `i`.
pub open spec fn contains_at(hay: Seq<char>, needle: Seq<char>, i: int) -> bool {
    0 <= i && i + needle.len() <= hay.len() && hay.subrange(i, i + needle.len()) == needle
}

/// `needle` occurs somewhere in `hay` as a contiguous substring.
pub open spec fn contains_seq(hay: Seq<char>, needle: Seq<char>) -> bool {
    exists|i: int| contains_at(hay, needle, i)
}

// ---------------------------------------------------------------------------
// Conversions between `String` and `Vec<char>`
// ---------------------------------------------------------------------------

/// Relies on `String::push`: appends one character to the string.
#[verifier::external_body]
pub fn push_char(s: &mut String, c: char)
    ensures
        final(s)@ == old(s)@.push(c),
{
    s.push(c);
}

/// The characters of `s`, in order.
pub fn to_chars(s: &str) -> (r: Vec<char>)
    ensures
        r@ == s@,
{
    let n = s.unicode_len();
    let mut r: Vec<char> = Vec::new();
    let mut i: usize = 0;
    while i < n
        invariant
            n == s@.len(),
            i <= n,
            r@ == s@.subrange(0, i as int),
        decreases n - i,
    {
        r.push(s.get_char(i));
        i = i + 1;
        proof {
            assert(r@ =~= s@.subrange(0, i as int));
        }
    }
    proof {
        assert(r@ =~= s@);
    }
    r
}

/// The string holding exactly the characters of `v`, in order.
pub fn from_chars(v: &Vec<char>) -> (r: String)
    ensures
        r@ == v@,
{
    let mut r = String::new();
    let mut i: usize = 0;
    while i < v.len()
        invariant
            i <= v@.len(),
            r@ == v@.subrange(0, i as int),
        decreases v@.len() - i,
    {
        push_char(&mut r, v[i]);
        i = i + 1;
        proof {
            assert(r@ =~= v@.subrange(0, i as int));
        }
    }
    proof {
        assert(r@ =~= v@);
    }
    r
}

// ---------------------------------------------------------------------------
// Splitting a path into its `/`-separated components
// ---------------------------------------------------------------------------

/// Helper for `path_components`: walks `s` from the left, carrying the
/// segment built so far (`cur`) and the finished segments (`acc`).
pub open spec fn split_rec(s: Seq<char>, cur: Seq<char>, acc: Seq<Seq<char>>) -> Seq<Seq<char>>
    decreases s.len(),
{
    if s.len() == 0 {
        if cur.len() == 0 {
            acc
        } else {
            acc.push(cur)
        }
    } else if s[0] == '/' {
        if cur.len() == 0 {
            split_rec(s.skip(1), Seq::empty(), acc)
        } else {
            split_rec(s.skip(1), Seq::empty(), acc.push(cur))
        }
    } else {
        split_rec(s.skip(1), cur.push(s[0]), acc)
    }
}

/// The non-empty `/`-separated components of a path string, in order.
/// Empty segments (leading, trailing or doubled slashes) are dropped.
pub open spec fn path_components(s: Seq<char>) -> Seq<Seq<char>> {
    split_rec(s, Seq::empty(), Seq::empty())
}

/// A sequence of segments is a well-formed component list: every segment is
/// non-empty and free of `/`.
pub open spec fn wf_components(segs: Seq<Seq<char>>) -> bool {
    forall|i: int|
        0 <= i < segs.len() ==> (#[trigger] segs[i]).len() > 0 && !segs[i].contains('/')
}

proof fn lemma_split_rec_wf(s: Seq<char>, cur: Seq<char>, acc: Seq<Seq<char>>)
    requires
        cur.len() > 0 ==> !cur.contains('/'),
        wf_components(acc),
    ensures
        wf_components(split_rec(s, cur, acc)),
    decreases s.len(),
{
    if s.len() == 0 {
        if cur.len() > 0 {
            assert forall|i: int| 0 <= i < acc.push(cur).len() implies (#[trigger] acc.push(
                cur,
            )[i]).len() > 0 && !acc.push(cur)[i].contains('/') by {
                if i < acc.len() {
                    assert(acc.push(cur)[i] == acc[i]);
                } else {
                    assert(acc.push(cur)[i] == cur);
                }
            }
        }
    } else if s[0] == '/' {
        if cur.len() == 0 {
            lemma_split_rec_wf(s.skip(1), Seq::empty(), acc);
        } else {
            assert forall|i: int| 0 <= i < acc.push(cur).len() implies (#[trigger] acc.push(
                cur,
            )[i]).len() > 0 && !acc.push(cur)[i].contains('/') by {
                if i < acc.len() {
                    assert(acc.push(cur)[i] == acc[i]);
                } else {
                    assert(acc.push(cur)[i] == cur);
                }
            }
            lemma_split_rec_wf(s.skip(1), Seq::empty(), acc.push(cur));
        }
    } else {
        assert(!cur.push(s[0]).contains('/')) by {
            assert(forall|j: int|
                0 <= j < cur.len() ==> cur.push(s[0])[j] == #[trigger] cur[j]);
            assert(cur.push(s[0])[cur.len() as int] == s[0]);
            if cur.push(s[0]).contains('/') {
                let j = choose|j: int|
                    0 <= j < cur.push(s[0]).len() && cur.push(s[0])[j] == '/';
                if j < cur.len() {
                    assert(cur.contains('/'));
                }
            }
        }
        lemma_split_rec_wf(s.skip(1), cur.push(s[0]), acc);
    }
}

/// The components of any path string are well formed.
pub proof fn lemma_path_components_wf(s: Seq<char>)
    ensures
        wf_components(path_components(s)),
{
    assert(!Seq::<char>::empty().contains('/'));
    lemma_split_rec_wf(s, Seq::empty(), Seq::empty());
}

/// The `/`-separated components of a path, as strings.
pub fn components_of(path: &str) -> (r: Vec<String>)
    ensures
        r@.map_values(|x: String| x@) == path_components(path@),
{
    let chars = to_chars(path);
    let n = chars.len();
    let mut acc: Vec<String> = Vec::new();
    let mut cur: Vec<char> = Vec::new();
    let mut i: usize = 0;
    proof {
        assert(path@.skip(0) =~= path@);
        assert(cur@ =~= Seq::<char>::empty());
        assert(acc@.map_values(|x: String| x@) =~= Seq::<Seq<char>>::empty());
    }
    while i < n
        invariant
            n == chars@.len(),
            chars@ == path@,
            i <= n,
            split_rec(path@.skip(i as int), cur@, acc@.map_values(|x: String| x@))
                == path_components(path@),
        decreases n - i,
    {
        let ghost pre_s = path@.skip(i as int);
        let ghost pre_cur = cur@;
        let ghost pre_acc = acc@.map_values(|x: String| x@);
        let c = chars[i];
        proof {
            assert(pre_s.len() > 0);
            assert(pre_s[0] == path@[i as int]);
            assert(pre_s.skip(1) =~= path@.skip(i as int + 1));
        }
        if c == '/' {
            if cur.len() > 0 {
                let seg = from_chars(&cur);
                acc.push(seg);
                cur = Vec::new();
                proof {
                    assert(acc@.map_values(|x: String| x@) =~= pre_acc.push(pre_cur));
                    assert(cur@ =~= Seq::<char>::empty());
                    assert(split_rec(pre_s, pre_cur, pre_acc) == split_rec(
                        pre_s.skip(1),
                        Seq::empty(),
                        pre_acc.push(pre_cur),
                    ));
                }
            } else {
                proof {
                    assert(pre_cur =~= Seq::<char>::empty());
                    assert(split_rec(pre_s, pre_cur, pre_acc) == split_rec(
                        pre_s.skip(1),
                        Seq::empty(),
                        pre_acc,
                    ));
                }
            }
        } else {
            cur.push(c);
            proof {
                assert(cur@ == pre_cur.push(c));
                assert(split_rec(pre_s, pre_cur, pre_acc) == split_rec(
                    pre_s.skip(1),
                    pre_cur.push(c),
                    pre_acc,
                ));
            }
        }
        i = i + 1;
    }
    proof {
        assert(path@.skip(n as int) =~= Seq::<char>::empty());
    }
    if cur.len() > 0 {
        let seg = from_chars(&cur);
        let ghost old_acc = acc@.map_values(|x: String| x@);
        acc.push(seg);
        proof {
            assert(acc@.map_values(|x: String| x@) =~= old_acc.push(seg@));
        }
    }
    acc
}

// ---------------------------------------------------------------------------
// Joining components with `/`
// ---------------------------------------------------------------------------

/// The segments joined with a single `/` between neighbours.
pub open spec fn join_slash(segs: Seq<Seq<char>>) -> Seq<char>
    decreases segs.len(),
{
    if segs.len() == 0 {
        Seq::empty()
    } else if segs.len() == 1 {
        segs[0]
    } else {
        segs[0] + seq!['/'] + join_slash(segs.skip(1))
    }
}

/// Appending one segment on the right extends the join by a separator and
/// that segment.
pub proof fn lemma_join_push(segs: Seq<Seq<char>>, x: Seq<char>)
    ensures
        join_slash(segs.push(x)) == if segs.len() == 0 {
            x
        } else {
            join_slash(segs) + seq!['/'] + x
        },
    decreases segs.len(),
{
    if segs.len() == 0 {
        assert(segs.push(x).len() == 1);
        assert(segs.push(x)[0] == x);
    } else if segs.len() == 1 {
        assert(segs.push(x)[0] == segs[0]);
        assert(segs.push(x).skip(1) =~= seq![x]);
        assert(join_slash(seq![x]) == seq![x][0]);
        assert(seq![x][0] == x);
        assert(join_slash(segs.push(x)) == segs.push(x)[0] + seq!['/'] + join_slash(
            segs.push(x).skip(1),
        ));
        assert(join_slash(segs) == segs[0]);
    } else {
        assert(segs.push(x).skip(1) =~= segs.skip(1).push(x));
        lemma_join_push(segs.skip(1), x);
        assert(segs.push(x)[0] == segs[0]);
        assert(join_slash(segs.push(x)) == segs[0] + seq!['/'] + join_slash(
            segs.skip(1).push(x),
        ));
        assert(join_slash(segs.skip(1).push(x)) == join_slash(segs.skip(1)) + seq!['/'] + x);
        assert(segs[0] + seq!['/'] + (join_slash(segs.skip(1)) + seq!['/'] + x) =~= (segs[0]
            + seq!['/'] + join_slash(segs.skip(1))) + seq!['/'] + x);
    }
}

/// Joins `segs[start..end]` with `/` separators.
pub fn join_range(segs: &Vec<String>, start: usize, end: usize) -> (r: String)
    requires
        start <= end <= segs@.len(),
    ensures
        r@ == join_slash(segs@.map_values(|x: String| x@).subrange(start as int, end as int)),
{
    let ghost model = segs@.map_values(|x: String| x@);
    let mut r = String::new();
    let mut i: usize = start;
    proof {
        assert(model.subrange(start as int, start as int) =~= Seq::<Seq<char>>::empty());
    }
    while i < end
        invariant
            start <= i <= end <= segs@.len(),
            model == segs@.map_values(|x: String| x@),
            r@ == join_slash(model.subrange(start as int, i as int)),
        decreases end - i,
    {
        proof {
            lemma_join_push(model.subrange(start as int, i as int), model[i as int]);
            assert(model.subrange(start as int, i as int).push(model[i as int]) =~= model.subrange(
                start as int,
                i as int + 1,
            ));
        }
        if i > start {
            let ghost before = r@;
            push_char(&mut r, '/');
            proof {
                assert(r@ =~= before + seq!['/']);
            }
        }
        r.append(segs[i].as_str());
        i = i + 1;
    }
    r
}

/// A join of well-formed segments is empty only when there are no segments.
pub proof fn lemma_join_len(segs: Seq<Seq<char>>)
    requires
        wf_components(segs),
    ensures
        segs.len() > 0 ==> join_slash(segs).len() > 0,
        segs.len() > 1 ==> join_slash(segs).len() > segs[0].len(),
{
    if segs.len() > 1 {
        assert(join_slash(segs) == segs[0] + seq!['/'] + join_slash(segs.skip(1)));
        assert(join_slash(segs).len() >= segs[0].len() + 1);
    }
}

/// For two or more segments, the join carries the first segment verbatim,
/// then a `/`, then the join of the rest.
proof fn lemma_join_head(segs: Seq<Seq<char>>)
    requires
        segs.len() >= 2,
    ensures
        join_slash(segs).len() == segs[0].len() + 1 + join_slash(segs.skip(1)).len(),
        forall|i: int|
            0 <= i < segs[0].len() ==> join_slash(segs)[i] == segs[0][i],
        join_slash(segs)[segs[0].len() as int] == '/',
        forall|i: int|
            segs[0].len() < i < join_slash(segs).len() ==> join_slash(segs)[i] == join_slash(
                segs.skip(1),
            )[i - segs[0].len() - 1],
{
    assert(join_slash(segs) == segs[0] + seq!['/'] + join_slash(segs.skip(1)));
}

/// Joining with `/` is injective on well-formed component lists.
pub proof fn lemma_join_injective(a: Seq<Seq<char>>, b: Seq<Seq<char>>)
    requires
        wf_components(a),
        wf_components(b),
        join_slash(a) == join_slash(b),
    ensures
        a == b,
    decreases a.len(),
{
    if a.len() == 0 {
        lemma_join_len(b);
        assert(b.len() == 0);
        assert(a =~= b);
    } else if b.len() == 0 {
        lemma_join_len(a);
        assert(a.len() == 0);
    } else if a.len() == 1 {
        if b.len() >= 2 {
            lemma_join_head(b);
            assert(join_slash(a) == a[0]);
            assert(a[0][b[0].len() as int] == '/');
            assert(a[0].contains('/'));
            assert(false);
        }
        assert(join_slash(a) == a[0] && join_slash(b) == b[0]);
        assert(a =~= b);
    } else if b.len() == 1 {
        lemma_join_head(a);
        assert(join_slash(b) == b[0]);
        assert(b[0][a[0].len() as int] == '/');
        assert(b[0].contains('/'));
        assert(false);
    } else {
        lemma_join_head(a);
        lemma_join_head(b);
        if a[0].len() < b[0].len() {
            assert(join_slash(b)[a[0].len() as int] == b[0][a[0].len() as int]);
            assert(join_slash(a)[a[0].len() as int] == '/');
            assert(b[0].contains('/'));
            assert(false);
        }
        if b[0].len() < a[0].len() {
            assert(join_slash(a)[b[0].len() as int] == a[0][b[0].len() as int]);
            assert(join_slash(b)[b[0].len() as int] == '/');
            assert(a[0].contains('/'));
            assert(false);
        }
        assert(a[0].len() == b[0].len());
        assert forall|i: int| 0 <= i < a[0].len() implies a[0][i] == b[0][i] by {
            assert(a[0][i] == join_slash(a)[i]);
            assert(b[0][i] == join_slash(b)[i]);
        }
        assert(a[0] =~= b[0]);
        assert forall|i: int| 0 <= i < join_slash(a.skip(1)).len() implies join_slash(
            a.skip(1),
        )[i] == join_slash(b.skip(1))[i] by {
            assert(join_slash(a.skip(1))[i] == join_slash(a)[i + a[0].len() + 1]);
            assert(join_slash(b.skip(1))[i] == join_slash(b)[i + b[0].len() + 1]);
        }
        assert(join_slash(a.skip(1)) =~= join_slash(b.skip(1)));
        assert forall|i: int| 0 <= i < a.skip(1).len() implies (#[trigger] a.skip(
            1,
        )[i]).len() > 0 && !a.skip(1)[i].contains('/') by {
            assert(a.skip(1)[i] == a[i + 1]);
        }
        assert forall|i: int| 0 <= i < b.skip(1).len() implies (#[trigger] b.skip(
            1,
        )[i]).len() > 0 && !b.skip(1)[i].contains('/') by {
            assert(b.skip(1)[i] == b[i + 1]);
        }
        lemma_join_injective(a.skip(1), b.skip(1));
        assert forall|i: int| 0 <= i < a.len() implies #[trigger] a[i] == #[trigger] b[i] by {
            if i >= 1 {
                assert(a[i] == a.skip(1)[i - 1]);
                assert(b[i] == b.skip(1)[i - 1]);
            }
        }
        assert(a =~= b);
    }
}

// ---------------------------------------------------------------------------
// Small string helpers
// ---------------------------------------------------------------------------

/// The last `/`-separated component of `path`, or `None` when there is none
/// (for instance a path of nothing but slashes).
pub fn basename(path: &str) -> (r: Option<String>)
    ensures
        match r {
            Some(s) => path_components(path@).len() > 0 && s@ == path_components(path@).last(),
            None => path_components(path@).len() == 0,
        },
{
    let comps = components_of(path);
    let n = comps.len();
    if n == 0 {
        None
    } else {
        let ghost model = comps@.map_values(|x: String| x@);
        let s = comps[n - 1].clone();
        proof {
            assert(s@ == model.last());
        }
        Some(s)
    }
}

/// Character-by-character equality of two string slices.
pub fn str_eq(a: &str, b: &str) -> (r: bool)
    ensures
        r == (a@ == b@),
{
    let na = a.unicode_len();
    let nb = b.unicode_len();
    if na != nb {
        proof {
            assert(a@ != b@);
        }
        return false;
    }
    let mut i: usize = 0;
    while i < na
        invariant
            na == a@.len() && na == b@.len(),
            i <= na,
            forall|k: int| 0 <= k < i ==> a@[k] == b@[k],
        decreases na - i,
    {
        if a.get_char(i) != b.get_char(i) {
            return false;
        }
        i = i + 1;
    }
    proof {
        assert(a@ =~= b@);
    }
    true
}

// ---------------------------------------------------------------------------
// Lexicographic order on character sequences, and sorting
// ---------------------------------------------------------------------------

/// `a` is lexicographically at or before `b`, comparing scalar values.
pub open spec fn lex_le(a: Seq<char>, b: Seq<char>) -> bool
    decreases a.len(),
{
    if a.len() == 0 {
        true
    } else if b.len() == 0 {
        false
    } else if (a[0] as u32) < (b[0] as u32) {
        true
    } else if (a[0] as u32) > (b[0] as u32) {
        false
    } else {
        lex_le(a.skip(1), b.skip(1))
    }
}

/// Any two strings are ordered one way or the other.
pub proof fn lemma_lex_total(a: Seq<char>, b: Seq<char>)
    ensures
        lex_le(a, b) || lex_le(b, a),
    decreases a.len(),
{
    if a.len() > 0 && b.len() > 0 && !((a[0] as u32) < (b[0] as u32)) && !((a[0] as u32) > (
    b[0] as u32)) {
        lemma_lex_total(a.skip(1), b.skip(1));
    }
}

/// Lexicographic order is transitive.
pub proof fn lemma_lex_trans(a: Seq<char>, b: Seq<char>, c: Seq<char>)
    requires
        lex_le(a, b),
        lex_le(b, c),
    ensures
        lex_le(a, c),
    decreases a.len(),
{
    if a.len() > 0 && b.len() > 0 && c.len() > 0 {
        if !((a[0] as u32) < (b[0] as u32)) && !((a[0] as u32) > (b[0] as u32)) && !((
        b[0] as u32) < (c[0] as u32)) && !((b[0] as u32) > (c[0] as u32)) {
            lemma_lex_trans(a.skip(1), b.skip(1), c.skip(1));
        }
    }
}

/// Decides `lex_le` on two string slices.
pub fn lex_le_exec(a: &str, b: &str) -> (r: bool)
    ensures
        r == lex_le(a@, b@),
{
    let na = a.unicode_len();
    let nb = b.unicode_len();
    let mut i: usize = 0;
    proof {
        assert(a@.skip(0) =~= a@);
        assert(b@.skip(0) =~= b@);
    }
    loop
        invariant
            na == a@.len() && nb == b@.len(),
            i <= na && i <= nb,
            lex_le(a@, b@) == lex_le(a@.skip(i as int), b@.skip(i as int)),
        decreases na - i,
    {
        let ghost sa = a@.skip(i as int);
        let ghost sb = b@.skip(i as int);
        if i >= na {
            proof {
                assert(sa.len() == 0);
            }
            return true;
        }
        if i >= nb {
            proof {
                assert(sa.len() > 0 && sb.len() == 0);
            }
            return false;
        }
        let ca = a.get_char(i);
        let cb = b.get_char(i);
        proof {
            assert(sa.len() > 0 && sb.len() > 0);
            assert(sa[0] == a@[i as int] && sb[0] == b@[i as int]);
            assert(sa.skip(1) =~= a@.skip(i as int + 1));
            assert(sb.skip(1) =~= b@.skip(i as int + 1));
        }
        if (ca as u32) < (cb as u32) {
            return true;
        }
        if (ca as u32) > (cb as u32) {
            return false;
        }
        i = i + 1;
    }
}

/// The sequence is sorted by `lex_le`.
pub open spec fn lex_sorted(s: Seq<Seq<char>>) -> bool {
    forall|i: int, j: int| 0 <= i < j < s.len() ==> lex_le(#[trigger] s[i], #[trigger] s[j])
}

/// Sorts the strings into lexicographic order. The result holds exactly the
/// same strings (as a multiset) as the input.
pub fn sort_strings(input: Vec<String>) -> (r: Vec<String>)
    ensures
        lex_sorted(r@.map_values(|x: String| x@)),
        r@.map_values(|x: String| x@).to_multiset() == input@.map_values(
            |x: String| x@,
        ).to_multiset(),
{
    broadcast use vstd::seq_lib::group_to_multiset_ensures;

    let ghost goal = input@.map_values(|x: String| x@);
    let mut rest = input;
    let mut out: Vec<String> = Vec::new();
    proof {
        assert(out@.map_values(|x: String| x@) =~= Seq::<Seq<char>>::empty());
        assert(rest@.map_values(|x: String| x@) =~= goal);
    }
    while rest.len() > 0
        invariant
            lex_sorted(out@.map_values(|x: String| x@)),
            out@.map_values(|x: String| x@).to_multiset().add(
                rest@.map_values(|x: String| x@).to_multiset(),
            ) == goal.to_multiset(),
        decreases rest@.len(),
    {
        broadcast use vstd::seq_lib::group_to_multiset_ensures;

        let ghost pre_out = out@.map_values(|x: String| x@);
        let ghost pre_rest = rest@.map_values(|x: String| x@);
        let x = rest.remove(0);
        proof {
            assert(rest@.map_values(|x: String| x@) =~= pre_rest.skip(1));
            assert(pre_rest.skip(1) =~= pre_rest.remove(0));
        }
        // find the first position whose element is not <= x
        let ghost mid = out@.map_values(|y: String| y@);
        let mut pos: usize = 0;
        let mut stop = false;
        while pos < out.len() && !stop
            invariant
                pos <= out@.len(),
                mid == out@.map_values(|y: String| y@),
                forall|k: int| 0 <= k < pos ==> lex_le(#[trigger] mid[k], x@),
                stop ==> pos < out@.len() && !lex_le(mid[pos as int], x@),
            decreases out@.len() - pos + (if stop {
                0int
            } else {
                1int
            }),
        {
            if lex_le_exec(out[pos].as_str(), x.as_str()) {
                pos = pos + 1;
            } else {
                stop = true;
            }
        }
        proof {
            if pos < out@.len() {
                lemma_lex_total(mid[pos as int], x@);
                assert(lex_le(x@, mid[pos as int]));
            }
        }
        out.insert(pos, x);
        proof {
            let post = out@.map_values(|y: String| y@);
            assert(post =~= mid.insert(pos as int, x@));
            assert forall|i: int, j: int| 0 <= i < j < post.len() implies lex_le(
                #[trigger] post[i],
                #[trigger] post[j],
            ) by {
                if j < pos {
                    assert(post[i] == mid[i] && post[j] == mid[j]);
                } else if i > pos {
                    assert(post[i] == mid[i - 1] && post[j] == mid[j - 1]);
                } else if i == pos {
                    // post[i] is x itself; everything at or past pos is >= x
                    assert(post[i] == x@ && post[j] == mid[j - 1]);
                    assert(lex_le(x@, mid[pos as int]));
                    if j - 1 > pos {
                        lemma_lex_trans(x@, mid[pos as int], mid[j - 1]);
                    }
                } else if j == pos {
                    assert(post[i] == mid[i] && post[j] == x@);
                } else {
                    // i < pos < j: both sides come from the old, sorted prefix
                    assert(post[i] == mid[i] && post[j] == mid[j - 1]);
                    assert(lex_le(mid[i], mid[j - 1]));
                }
            }
            // multiset bookkeeping
            assert(post.remove(pos as int) =~= mid);
            assert(post[pos as int] == x@);
            assert(post.contains(x@));
            assert(mid.to_multiset() == post.to_multiset().remove(x@));
            assert(post.to_multiset() =~= mid.to_multiset().insert(x@));
            let new_rest = rest@.map_values(|y: String| y@);
            assert(new_rest =~= pre_rest.remove(0));
            assert(pre_rest[0] == x@);
            assert(new_rest.to_multiset() == pre_rest.to_multiset().remove(x@));
            assert(pre_rest.contains(x@));
            assert(pre_rest.to_multiset().count(x@) > 0);
            assert(post.to_multiset().add(new_rest.to_multiset()) =~= mid.to_multiset().add(
                pre_rest.to_multiset(),
            ));
        }
    }
    proof {
        assert(rest@.map_values(|x: String| x@) =~= Seq::<Seq<char>>::empty());
    }
    out
}

/// The decimal digits of `n`, most significant first.
pub open spec fn dec_digits(n: int) -> Seq<char>
    decreases n,
{
    if n < 0 {
        Seq::empty()
    } else if n < 10 {
        seq![((48 + n) as u8) as char]
    } else {
        dec_digits(n / 10).push(((48 + n % 10) as u8) as char)
    }
}

/// Writes `n` in decimal.
pub fn u32_to_string(n: u32) -> (r: String)
    ensures
        r@ == dec_digits(n as int),
    decreases n,
{
    if n < 10 {
        let d: u8 = 48 + (n as u8);
        let mut s = String::new();
        push_char(&mut s, d as char);
        proof {
            assert(s@ =~= dec_digits(n as int));
        }
        s
    } else {
        let mut s = u32_to_string(n / 10);
        let d: u8 = 48 + ((n % 10) as u8);
        push_char(&mut s, d as char);
        s
    }
}

/// `s` with every `.` replaced by `_`; used to make a name acceptable to the
/// session host.
pub open spec fn spec_sanitize(s: Seq<char>) -> Seq<char> {
    s.map_values(|c: char| if c == '.' { '_' } else { c })
}

/// Replaces `.` with `_` throughout.
pub fn sanitize_session_name(s: &str) -> (r: String)
    ensures
        r@ == spec_sanitize(s@),
{
    let chars = to_chars(s);
    let mut out: Vec<char> = Vec::new();
    let mut i: usize = 0;
    while i < chars.len()
        invariant
            chars@ == s@,
            i <= chars@.len(),
            out@ == spec_sanitize(s@.subrange(0, i as int)),
        decreases chars@.len() - i,
    {
        let c = chars[i];
        if c == '.' {
            out.push('_');
        } else {
            out.push(c);
        }
        i = i + 1;
        proof {
            assert(out@ =~= spec_sanitize(s@.subrange(0, i as int)));
        }
    }
    proof {
        assert(out@ =~= spec_sanitize(s@));
    }
    from_chars(&out)
}

} // verus!
