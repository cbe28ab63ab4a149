//! Stamp arguments: the `--sidecar-stamp-*` flags that carry a
//! `SidecarStamp` on a process's command line, and how to read them
//! back.

use vstd::prelude::*;

use crate::identity::{mode_name, mode_named, SidecarMode, SidecarStamp};
use crate::text::{
    concat, contains_seq, split_whitespace, starts_with, str_contains, str_eq,
    str_skip, str_starts_with, views, words,
};

verus! {

pub const STAMP_APP_FLAG: &'static str = "--sidecar-stamp-app";

pub const STAMP_NAMESPACE_FLAG: &'static str = "--sidecar-stamp-namespace";

pub const STAMP_MODE_FLAG: &'static str = "--sidecar-stamp-mode";

pub const STAMP_SOURCE_FLAG: &'static str = "--sidecar-stamp-source";

/// Why a stamp could not be read from a command line.
#[derive(Debug, Clone, PartialEq, Eq)]
pub enum StampError {
    Missing(&'static str),
    InvalidMode(String),
}

/// `flag=value`, the inline form of a flag.
pub open spec fn inline_arg(flag: Seq<char>, value: Seq<char>) -> Seq<char> {
    flag + seq!['='] + value
}

/// `arg` is `flag` itself or its inline form.
pub open spec fn flag_matches(arg: Seq<char>, flag: Seq<char>) -> bool {
    arg == flag || starts_with(arg, flag.push('='))
}

/// The first index at or after `i` whose argument matches `flag`.
pub open spec fn first_flag_from(args: Seq<Seq<char>>, flag: Seq<char>, i: int) -> Option<int>
    decreases args.len() - i,
{
    if i < 0 || i >= args.len() {
        None
    } else if flag_matches(args[i], flag) {
        Some(i)
    } else {
        first_flag_from(args, flag, i + 1)
    }
}

/// The value of the first occurrence of `flag` in `args`: the argument
/// after a bare `flag`, or the text after `flag=`.
pub open spec fn flag_value(args: Seq<Seq<char>>, flag: Seq<char>) -> Option<Seq<char>> {
    match first_flag_from(args, flag, 0) {
        None => None,
        Some(i) => if args[i] == flag {
            if i + 1 < args.len() {
                Some(args[i + 1])
            } else {
                None
            }
        } else {
            Some(args[i].skip(flag.len() + 1 as int))
        },
    }
}

/// The four stamp arguments, in the order app, namespace, mode, source.
pub open spec fn stamp_args(stamp: SidecarStamp) -> Seq<Seq<char>> {
    seq![
        inline_arg(STAMP_APP_FLAG@, stamp.app@),
        inline_arg(STAMP_NAMESPACE_FLAG@, stamp.namespace@),
        inline_arg(STAMP_MODE_FLAG@, mode_name(stamp.mode)),
        inline_arg(STAMP_SOURCE_FLAG@, stamp.source@),
    ]
}

fn inline_flag(flag: &str, value: &str) -> (r: String)
    ensures
        r@ == inline_arg(flag@, value@),
{
    let prefix = concat(flag, "=");
    proof {
        reveal_strlit("=");
        assert("="@ =~= seq!['=']);
    }
    concat(prefix.as_str(), value)
}

/// The command-line arguments that carry `stamp`.
pub fn create_stamp_args(stamp: &SidecarStamp) -> (r: Vec<String>)
    ensures
        views(r@) == stamp_args(*stamp),
{
    let mut r: Vec<String> = Vec::new();
    r.push(inline_flag(STAMP_APP_FLAG, stamp.app.as_str()));
    r.push(inline_flag(STAMP_NAMESPACE_FLAG, stamp.namespace.as_str()));
    r.push(inline_flag(STAMP_MODE_FLAG, stamp.mode.as_str()));
    r.push(inline_flag(STAMP_SOURCE_FLAG, stamp.source.as_str()));
    assert(views(r@) =~= stamp_args(*stamp));
    r
}

/// The value of the first occurrence of `flag` in `args`.
pub fn read_flag_value(args: &[String], flag: &'static str) -> (r: Option<String>)
    ensures
        match r {
            Some(v) => flag_value(views(args@), flag@) == Some(v@),
            None => flag_value(views(args@), flag@) is None,
        },
{
    let ghost a = views(args@);
    let inline_prefix = concat(flag, "=");
    proof {
        reveal_strlit("=");
        assert(inline_prefix@ =~= flag@.push('='));
    }
    let mut index: usize = 0;
    while index < args.len()
        invariant
            a == views(args@),
            inline_prefix@ == flag@.push('='),
            index <= args@.len(),
            first_flag_from(a, flag@, 0) == first_flag_from(a, flag@, index as int),
        decreases args@.len() - index,
    {
        let arg = &args[index];
        assert(a[index as int] == arg@);
        if str_eq(arg.as_str(), flag) {
            if index + 1 < args.len() {
                let v = args[index + 1].clone();
                assert(a[index + 1] == v@);
                return Some(v);
            }
            return None;
        }
        if str_starts_with(arg.as_str(), inline_prefix.as_str()) {
            let v = str_skip(arg.as_str(), inline_prefix.unicode_len());
            return Some(v);
        }
        index = index + 1;
    }
    None
}

/// The stamp carried by `args`. The mode flag is read first, then app,
/// namespace and source; the first that is missing, or a mode that names
/// no mode, is the error.
pub fn read_stamp(args: &[String]) -> (r: Result<SidecarStamp, StampError>)
    ensures
        ({
            let a = views(args@);
            let mode_v = flag_value(a, STAMP_MODE_FLAG@);
            let app_v = flag_value(a, STAMP_APP_FLAG@);
            let ns_v = flag_value(a, STAMP_NAMESPACE_FLAG@);
            let src_v = flag_value(a, STAMP_SOURCE_FLAG@);
            match r {
                Ok(stamp) => {
                    &&& mode_v == Some(mode_name(stamp.mode))
                    &&& app_v == Some(stamp.app@)
                    &&& ns_v == Some(stamp.namespace@)
                    &&& src_v == Some(stamp.source@)
                },
                Err(StampError::InvalidMode(v)) => mode_v == Some(v@) && mode_named(v@) is None,
                Err(StampError::Missing(f)) => {
                    ||| mode_v is None && f@ == STAMP_MODE_FLAG@
                    ||| mode_v is Some && mode_named(mode_v->0) is Some && {
                        ||| app_v is None && f@ == STAMP_APP_FLAG@
                        ||| app_v is Some && ns_v is None && f@ == STAMP_NAMESPACE_FLAG@
                        ||| app_v is Some && ns_v is Some && src_v is None && f@
                            == STAMP_SOURCE_FLAG@
                    }
                },
            }
        }),
{
    let mode_value = match read_flag_value(args, STAMP_MODE_FLAG) {
        Some(v) => v,
        None => return Err(StampError::Missing(STAMP_MODE_FLAG)),
    };
    let mode = match SidecarMode::parse(mode_value.as_str()) {
        Ok(m) => m,
        Err(_) => return Err(StampError::InvalidMode(mode_value)),
    };
    let app = match read_flag_value(args, STAMP_APP_FLAG) {
        Some(v) => v,
        None => return Err(StampError::Missing(STAMP_APP_FLAG)),
    };
    let namespace = match read_flag_value(args, STAMP_NAMESPACE_FLAG) {
        Some(v) => v,
        None => return Err(StampError::Missing(STAMP_NAMESPACE_FLAG)),
    };
    let source = match read_flag_value(args, STAMP_SOURCE_FLAG) {
        Some(v) => v,
        None => return Err(StampError::Missing(STAMP_SOURCE_FLAG)),
    };
    proof {
        assert(mode_named(mode_value@) == Some(mode));
        assert(mode_name(mode) == mode_value@);
    }
    Ok(SidecarStamp { app, namespace, mode, source })
}

/// The value of `flag` in a command line that holds `flag=value` at
/// index `i`, where no earlier argument matches `flag`.
proof fn lemma_flag_value_at(args: Seq<Seq<char>>, flag: Seq<char>, value: Seq<char>, i: int)
    requires
        0 <= i < args.len(),
        args[i] == inline_arg(flag, value),
        forall|k: int| 0 <= k < i ==> !flag_matches(#[trigger] args[k], flag),
    ensures
        flag_value(args, flag) == Some(value),
    decreases i,
{
    assert(starts_with(args[i], flag.push('='))) by {
        assert(args[i].take(flag.len() + 1 as int) =~= flag.push('='));
    }
    assert(args[i] != flag) by {
        assert(args[i].len() != flag.len());
    }
    assert(args[i].skip(flag.len() + 1 as int) =~= value);
    assert forall|j: int| 0 <= j <= i implies first_flag_from(args, flag, j) == Some(i) by {
        lemma_first_flag_from(args, flag, j, i);
    }
}

proof fn lemma_first_flag_from(args: Seq<Seq<char>>, flag: Seq<char>, j: int, i: int)
    requires
        0 <= j <= i < args.len(),
        flag_matches(args[i], flag),
        forall|k: int| 0 <= k < i ==> !flag_matches(#[trigger] args[k], flag),
    ensures
        first_flag_from(args, flag, j) == Some(i),
    decreases i - j,
{
    if j < i {
        lemma_first_flag_from(args, flag, j + 1, i);
    }
}

/// Two stamp flags of different names: an argument in the inline form
/// of one never matches the other.
proof fn lemma_stamp_flags_distinct(f: Seq<char>, g: Seq<char>, value: Seq<char>)
    requires
        f.len() > 16,
        g.len() > 16,
        f[16] != g[16],
    ensures
        !flag_matches(inline_arg(f, value), g),
{
    let a = inline_arg(f, value);
    assert(a[16] == f[16]);
    if a == g {
        assert(a[16] == g[16]);
    }
    if starts_with(a, g.push('=')) {
        assert(a.take(g.len() + 1 as int)[16] == g.push('=')[16]);
    }
}

/// A stamp written with `create_stamp_args` reads back unchanged: each
/// flag's value in `stamp_args(stamp)` is the stamp's own field, and the
/// mode's name names that mode, so `read_stamp` returns `Ok(stamp)`.
pub proof fn law_stamp_args_read_back(stamp: SidecarStamp)
    ensures
        flag_value(stamp_args(stamp), STAMP_MODE_FLAG@) == Some(mode_name(stamp.mode)),
        flag_value(stamp_args(stamp), STAMP_APP_FLAG@) == Some(stamp.app@),
        flag_value(stamp_args(stamp), STAMP_NAMESPACE_FLAG@) == Some(stamp.namespace@),
        flag_value(stamp_args(stamp), STAMP_SOURCE_FLAG@) == Some(stamp.source@),
        mode_named(mode_name(stamp.mode)) == Some(stamp.mode),
{
    reveal_strlit("--sidecar-stamp-app");
    reveal_strlit("--sidecar-stamp-namespace");
    reveal_strlit("--sidecar-stamp-mode");
    reveal_strlit("--sidecar-stamp-source");
    let a = STAMP_APP_FLAG@;
    let n = STAMP_NAMESPACE_FLAG@;
    let m = STAMP_MODE_FLAG@;
    let s = STAMP_SOURCE_FLAG@;
    let args = stamp_args(stamp);
    let mv = mode_name(stamp.mode);
    assert(a[16] == 'a' && n[16] == 'n' && m[16] == 'm' && s[16] == 's');
    lemma_stamp_flags_distinct(a, n, stamp.app@);
    lemma_stamp_flags_distinct(a, m, stamp.app@);
    lemma_stamp_flags_distinct(a, s, stamp.app@);
    lemma_stamp_flags_distinct(n, m, stamp.namespace@);
    lemma_stamp_flags_distinct(n, s, stamp.namespace@);
    lemma_stamp_flags_distinct(m, s, mv);
    lemma_flag_value_at(args, a, stamp.app@, 0);
    lemma_flag_value_at(args, n, stamp.namespace@, 1);
    lemma_flag_value_at(args, m, mv, 2);
    lemma_flag_value_at(args, s, stamp.source@, 3);
}

/// `command` carries `flag` with `value`: as two neighbouring words, as
/// one `flag=value` word, or as the text `flag value` anywhere in it.
pub open spec fn command_has_stamp(command: Seq<char>, flag: Seq<char>, value: Seq<char>) -> bool {
    let w = words(command);
    ||| exists|i: int| #[trigger] pair_at(w, i, flag, value)
    ||| exists|i: int| #[trigger] word_at(w, i, inline_arg(flag, value))
    ||| contains_seq(command, flag + seq![' '] + value)
}

/// Words `i` and `i + 1` of `w` are `first` and `second`.
pub open spec fn pair_at(w: Seq<Seq<char>>, i: int, first: Seq<char>, second: Seq<char>) -> bool {
    0 <= i && i + 1 < w.len() && w[i] == first && w[i + 1] == second
}

/// Word `i` of `w` is `x`.
pub open spec fn word_at(w: Seq<Seq<char>>, i: int, x: Seq<char>) -> bool {
    0 <= i < w.len() && w[i] == x
}

pub fn command_contains_stamp(command: &str, flag: &'static str, value: &str) -> (r: bool)
    ensures
        r == command_has_stamp(command@, flag@, value@),
{
    let inline = inline_flag(flag, value);
    let spaced = concat(flag, " ");
    let separated = concat(spaced.as_str(), value);
    proof {
        reveal_strlit(" ");
        assert(" "@ =~= seq![' ']);
    }
    let parts = split_whitespace(command);
    let ghost w = words(command@);
    assert(views(parts@) == w);
    let mut i: usize = 0;
    while i < parts.len()
        invariant
            w == views(parts@),
            w == words(command@),
            i <= parts@.len(),
            forall|k: int| 0 <= k < i ==> !#[trigger] pair_at(w, k, flag@, value@),
        decreases parts@.len() - i,
    {
        if i + 1 < parts.len() {
            assert(w[i as int] == parts@[i as int]@);
            assert(w[i + 1] == parts@[i + 1]@);
            if str_eq(parts[i].as_str(), flag) && str_eq(parts[i + 1].as_str(), value) {
                assert(pair_at(w, i as int, flag@, value@));
                return true;
            }
        }
        i = i + 1;
    }
    let mut j: usize = 0;
    while j < parts.len()
        invariant
            w == views(parts@),
            w == words(command@),
            j <= parts@.len(),
            inline@ == inline_arg(flag@, value@),
            forall|k: int| 0 <= k < j ==> !#[trigger] word_at(w, k, inline_arg(flag@, value@)),
        decreases parts@.len() - j,
    {
        assert(w[j as int] == parts@[j as int]@);
        if str_eq(parts[j].as_str(), inline.as_str()) {
            assert(word_at(w, j as int, inline_arg(flag@, value@)));
            return true;
        }
        j = j + 1;
    }
    assert(separated@ =~= flag@ + seq![' '] + value@);
    assert forall|k: int| !#[trigger] pair_at(w, k, flag@, value@) by {
        if 0 <= k && k + 1 < w.len() {
            assert(k < i);
        }
    }
    assert forall|k: int| !#[trigger] word_at(w, k, inline_arg(flag@, value@)) by {
        if 0 <= k < w.len() {
            assert(k < j);
        }
    }
    str_contains(command, separated.as_str())
}

impl StampError {
    /// The message this error reads as.
    pub fn describe(&self) -> (r: String)
        ensures
            r@ == match self {
                StampError::Missing(flag) => flag@ + " is required"@,
                StampError::InvalidMode(value) => "invalid sidecar-mode: "@ + value@,
            },
    {
        match self {
            StampError::Missing(flag) => concat(flag, " is required"),
            StampError::InvalidMode(value) => concat("invalid sidecar-mode: ", value.as_str()),
        }
    }
}

} // verus!
