use vstd::prelude::*;

use crate::ansi::dec_val;
use crate::error::TmsError;
use crate::session::{Session, SessionType};
use crate::strutil::{basename, path_components};

verus! {

/// The `marks` command line: an optional bare index, or a subcommand.
#[derive(Debug, Clone, PartialEq, Eq)]
pub struct MarksCommand {
    pub index: Option<usize>,
    pub cmd: Option<MarksSubCommand>,
}

/// The `marks` subcommands.
#[derive(Debug, Clone, PartialEq, Eq)]
pub enum MarksSubCommand {
    List,
    SetMark(MarksSetCommand),
    Open(MarksOpenCommand),
    Delete(MarksDeleteCommand),
}

/// Arguments of `marks set`.
#[derive(Debug, Clone, PartialEq, Eq)]
pub struct MarksSetCommand {
    pub index: Option<usize>,
    pub path: Option<String>,
}

/// Arguments of `marks open`.
#[derive(Debug, Clone, Copy, PartialEq, Eq, Structural)]
pub struct MarksOpenCommand {
    pub index: usize,
}

/// Arguments of `marks delete`.
#[derive(Debug, Clone, Copy, PartialEq, Eq, Structural)]
pub struct MarksDeleteCommand {
    pub index: Option<usize>,
    pub all: bool,
}

/// What a `marks` invocation asks for.
#[derive(Debug, Clone, PartialEq, Eq)]
pub enum MarksAction {
    List,
    Open(usize),
    SetMark { index: Option<usize>, path: Option<String> },
    Delete(usize),
    Clear,
}

/// Decides what a `marks` invocation means: a bare invocation lists, a bare
/// index opens, and each subcommand maps to its action. A delete with
/// neither an index nor `--all` is rejected.
pub fn marks_command(args: &MarksCommand) -> (r: Result<MarksAction, TmsError>)
    ensures
        match (args.cmd, args.index) {
            (Option::<MarksSubCommand>::None, Option::<usize>::None) => r == Result::<
                MarksAction,
                TmsError,
            >::Ok(MarksAction::List),
            (_, Some(index)) => r == Result::<MarksAction, TmsError>::Ok(
                MarksAction::Open(index),
            ),
            (Some(MarksSubCommand::List), _) => r == Result::<MarksAction, TmsError>::Ok(
                MarksAction::List,
            ),
            (Some(MarksSubCommand::SetMark(sub)), _) => r matches Ok(
                MarksAction::SetMark { index, path },
            ) && index == sub.index && path == sub.path,
            (Some(MarksSubCommand::Open(sub)), _) => r == Result::<MarksAction, TmsError>::Ok(
                MarksAction::Open(sub.index),
            ),
            (Some(MarksSubCommand::Delete(sub)), _) => if sub.all {
                r == Result::<MarksAction, TmsError>::Ok(MarksAction::Clear)
            } else if sub.index is Some {
                r == Result::<MarksAction, TmsError>::Ok(
                    MarksAction::Delete(sub.index.unwrap()),
                )
            } else {
                r == Result::<MarksAction, TmsError>::Err(TmsError::ConfigError)
            },
        },
{
    match (&args.cmd, args.index) {
        (None, None) => Ok(MarksAction::List),
        (_, Some(index)) => Ok(MarksAction::Open(index)),
        (Some(MarksSubCommand::List), _) => Ok(MarksAction::List),
        (Some(MarksSubCommand::SetMark(sub)), _) => Ok(
            MarksAction::SetMark {
                index: sub.index,
                path: match &sub.path {
                    Some(p) => Some(p.clone()),
                    None => None,
                },
            },
        ),
        (Some(MarksSubCommand::Open(sub)), _) => Ok(MarksAction::Open(sub.index)),
        (Some(MarksSubCommand::Delete(sub)), _) => {
            if sub.all {
                Ok(MarksAction::Clear)
            } else {
                match sub.index {
                    Some(i) => Ok(MarksAction::Delete(i)),
                    None => Err(TmsError::ConfigError),
                }
            }
        },
    }
}

/// `s` is one or more decimal digits.
pub open spec fn all_digits(s: Seq<char>) -> bool {
    s.len() > 0 && forall|i: int| 0 <= i < s.len() ==> '0' <= #[trigger] s[i] <= '9'
}

/// Digit strings have non-negative values, and extending one multiplies its
/// value up.
proof fn lemma_dec_val_nonneg(s: Seq<char>)
    requires
        forall|i: int| 0 <= i < s.len() ==> '0' <= #[trigger] s[i] <= '9',
    ensures
        dec_val(s) >= 0,
    decreases s.len(),
{
    if s.len() > 0 {
        assert(forall|i: int|
            0 <= i < s.drop_last().len() ==> '0' <= #[trigger] s.drop_last()[i] <= '9');
        lemma_dec_val_nonneg(s.drop_last());
    }
}

/// A digit string is worth at least any of its prefixes.
proof fn lemma_dec_val_prefix(s: Seq<char>, j: int)
    requires
        0 <= j <= s.len(),
        forall|i: int| 0 <= i < s.len() ==> '0' <= #[trigger] s[i] <= '9',
    ensures
        dec_val(s) >= dec_val(s.take(j)),
    decreases s.len() - j,
{
    if j < s.len() {
        lemma_dec_val_prefix(s, j + 1);
        assert(s.take(j + 1).drop_last() =~= s.take(j));
        assert(s.take(j + 1).last() == s[j]);
        assert(forall|i: int|
            0 <= i < s.take(j).len() ==> '0' <= #[trigger] s.take(j)[i] <= '9');
        lemma_dec_val_nonneg(s.take(j));
        assert(dec_val(s.take(j + 1)) == dec_val(s.take(j)) * 10 + (s[j] as int - '0' as int));
    } else {
        assert(s.take(j) =~= s);
    }
}

/// Parses a mark index: the whole string must be decimal digits and the
/// value must fit the machine.
pub fn parse_usize(s: &str) -> (r: Option<usize>)
    ensures
        match r {
            Some(v) => all_digits(s@) && v as int == dec_val(s@) && dec_val(s@) <= usize::MAX,
            None => !all_digits(s@) || dec_val(s@) > usize::MAX,
        },
{
    let n = s.unicode_len();
    if n == 0 {
        return None;
    }
    let mut v: usize = 0;
    let mut i: usize = 0;
    while i < n
        invariant
            n == s@.len(),
            i <= n,
            forall|k: int| 0 <= k < i ==> '0' <= #[trigger] s@[k] <= '9',
            v as int == dec_val(s@.take(i as int)),
        decreases n - i,
    {
        let c = s.get_char(i);
        if c < '0' || c > '9' {
            proof {
                assert(!all_digits(s@));
            }
            return None;
        }
        let d = ((c as u32) - ('0' as u32)) as usize;
        proof {
            assert(s@.take(i as int + 1).drop_last() =~= s@.take(i as int));
            assert(s@.take(i as int + 1).last() == s@[i as int]);
        }
        if v > (usize::MAX - d) / 10 {
            proof {
                assert(dec_val(s@.take(i as int + 1)) == dec_val(s@.take(i as int)) * 10 + (
                s@[i as int] as int - '0' as int));
                assert(dec_val(s@.take(i as int + 1)) > usize::MAX);
                assert(forall|k: int| 0 <= k < s@.len() ==> '0' <= #[trigger] s@[k] <= '9' ==> true);
                if all_digits(s@) {
                    lemma_dec_val_prefix(s@, i as int + 1);
                }
            }
            return None;
        }
        v = v * 10 + d;
        i = i + 1;
    }
    proof {
        assert(s@.take(n as int) =~= s@);
    }
    Some(v)
}

/// The first index not yet taken by a mark, given the taken indices in
/// strictly increasing order: the length of the longest prefix where the
/// index at position `i` is `i` itself.
pub fn first_free_index(indices: &Vec<usize>) -> (r: usize)
    requires
        forall|a: int, b: int|
            0 <= a < b < indices@.len() ==> indices@[a] < indices@[b],
    ensures
        forall|i: int| 0 <= i < r ==> indices@[i] == i,
        r as int == indices@.len() || indices@[r as int] != r,
{
    let n = indices.len();
    let mut i: usize = 0;
    while i < n
        invariant
            n == indices@.len(),
            i <= n,
            forall|k: int| 0 <= k < i ==> indices@[k] == k,
        decreases n - i,
    {
        if indices[i] != i {
            return i;
        }
        i = i + 1;
    }
    i
}

/// Builds the session a mark points at: the expanded, canonical path and
/// its basename as the session's name. A path without a usable final
/// component is rejected.
pub fn path_to_session(path: &String) -> (r: Result<Session, TmsError>)
    ensures
        match r {
            Ok(s) => {
                &&& path_components(path@).len() > 0
                &&& s.name@ == path_components(path@).last()
                &&& s.path@ == path@
                &&& s.session_type == SessionType::Path
            },
            Err(e) => e == TmsError::ConfigError && path_components(path@).len() == 0,
        },
{
    match basename(path.as_str()) {
        Some(name) => Ok(Session::new(name, path.clone(), SessionType::Path)),
        None => Err(TmsError::ConfigError),
    }
}

} // verus!
