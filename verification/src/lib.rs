//! Core of a declarative HTTP load-testing engine.
//!
//! Providers feed JSON values through bounded channels into an endpoint
//! engine, which assembles per-request template environments, builds
//! request bodies, enforces concurrency ceilings and on-demand pacing,
//! and fans response-derived values back out to providers and loggers.

pub mod body;
pub mod channel;
pub mod error;
pub mod json;
pub mod killer;
pub mod logger;
pub mod parse;
pub mod providers;
pub mod readers;
pub mod request;
pub mod stats;

use vstd::prelude::*;

verus! {

/// Replaces the file name of `base` with `rest`, storing the result
/// in `rest`, the way a path joins a sibling: the final path
/// component of `base` is dropped (trailing separators and trailing
/// `.` segments do not count as components) and `rest` stands in its
/// place. A `base` whose final component is `..` or a leading `.`,
/// or which has no component at all, keeps everything and `rest` is
/// appended after a separator.
pub fn tweak_path(rest: &mut String, base: &str)
    ensures
        final(rest)@ == spec_with_file_name(base@, old(rest)@),
{
    let n = base.unicode_len();
    let ends_in_sep = n > 0 && base.get_char(n - 1) == '/';
    let trimmed = norm_end(base, n);
    if trimmed == 0 {
        // No component: `rest` goes after whatever stands (the root,
        // a lone `/.`, or nothing).
        let mut out = String::from_str(base);
        if !ends_in_sep && n > 0 {
            out.append("/");
            proof {
                reveal_strlit("/");
                assert("/"@ =~= seq!['/']);
            }
        }
        out.append(rest.as_str());
        proof {
            assert(out@ =~= spec_with_file_name(base@, old(rest)@));
        }
        *rest = out;
        return ;
    }
    let j = last_slash_before(base, trimmed);
    let comp_len = match j {
        Some(p) => trimmed - p - 1,
        None => trimmed,
    };
    let comp_start = match j {
        Some(p) => p + 1,
        None => 0,
    };
    let is_dot = comp_len == 1 && base.get_char(comp_start) == '.';
    let is_dotdot = comp_len == 2 && base.get_char(comp_start) == '.' && base.get_char(
        comp_start + 1,
    ) == '.';
    proof {
        let comp = base@.subrange(comp_start as int, trimmed as int);
        if is_dot {
            assert(comp =~= seq!['.']);
        } else if is_dotdot {
            assert(comp =~= seq!['.', '.']);
        } else {
            assert(comp.len() == comp_len);
            assert(!(comp =~= seq!['.']) && !(comp =~= seq!['.', '.'])) by {
                if comp_len == 1 {
                    assert(comp[0] != '.');
                } else if comp_len == 2 {
                    assert(comp[0] != '.' || comp[1] != '.');
                }
            }
        }
    }
    if is_dot || is_dotdot {
        // A leading `.` or a `..` is not a file name: keep the base
        // whole and push `rest` after a separator.
        let mut out = String::from_str(base);
        if !ends_in_sep {
            out.append("/");
            proof {
                reveal_strlit("/");
                assert("/"@ =~= seq!['/']);
            }
        }
        out.append(rest.as_str());
        proof {
            assert(out@ =~= spec_with_file_name(base@, old(rest)@));
        }
        *rest = out;
        return ;
    }
    match j {
        Some(p) => {
            // Drop the component; collapse the separators before it
            // to one.
            let qlen = trim_trailing_slashes(base, p + 1);
            if qlen == 0 {
                let mut out = String::from_str(base.substring_char(0, p + 1));
                out.append(rest.as_str());
                proof {
                    assert(out@ =~= spec_with_file_name(base@, old(rest)@));
                }
                *rest = out;
            } else {
                let mut out = String::from_str(base.substring_char(0, qlen));
                out.append("/");
                proof {
                    reveal_strlit("/");
                    assert("/"@ =~= seq!['/']);
                }
                out.append(rest.as_str());
                proof {
                    assert(out@ =~= spec_with_file_name(base@, old(rest)@));
                }
                *rest = out;
            }
        },
        None => {
            // The whole base is the component: `rest` replaces it.
            proof {
                assert(rest@ =~= spec_with_file_name(base@, old(rest)@));
            }
        },
    }
}

/// The end of `p`'s prefix of length `e` once trailing separators
/// and trailing `.` segments (a `.` right after a `/`) are stripped,
/// the way path normalisation ignores them; a leading lone `.` stays.
pub open spec fn spec_norm_end(p: Seq<char>, e: int) -> int
    decreases e,
{
    if e <= 0 || e > p.len() {
        0
    } else if p[e - 1] == '/' {
        spec_norm_end(p, e - 1)
    } else if p[e - 1] == '.' && e >= 2 && p[e - 2] == '/' {
        spec_norm_end(p, e - 1)
    } else {
        e
    }
}

/// The length of `p`'s prefix of length `e` once trailing `/` are
/// stripped.
pub open spec fn spec_trim_len(p: Seq<char>, e: int) -> int
    decreases e,
{
    if e <= 0 {
        0
    } else if e <= p.len() && p[e - 1] == '/' {
        spec_trim_len(p, e - 1)
    } else {
        e
    }
}

/// The index of the last `/` strictly before `e`, or a negative
/// marker when there is none.
pub open spec fn spec_last_slash(p: Seq<char>, e: int) -> int
    decreases e,
{
    if e <= 0 {
        -1
    } else if e <= p.len() && p[e - 1] == '/' {
        e - 1
    } else {
        spec_last_slash(p, e - 1)
    }
}

/// `rest` pushed onto `base` as a new component: a separator comes
/// between unless `base` is empty or already ends with one.
pub open spec fn spec_push_name(base: Seq<char>, rest: Seq<char>) -> Seq<char> {
    if base.len() > 0 && base.last() != '/' {
        base + seq!['/'] + rest
    } else {
        base + rest
    }
}

/// `base` with its file name replaced by `rest`: the final component
/// — ignoring trailing separators and trailing `.` segments — is
/// dropped and `rest` takes its place; a base whose final component
/// is `..` or a leading `.`, or which has none, keeps everything
/// with `rest` pushed after a separator.
pub open spec fn spec_with_file_name(base: Seq<char>, rest: Seq<char>) -> Seq<char> {
    let trimmed = spec_norm_end(base, base.len() as int);
    if trimmed == 0 {
        spec_push_name(base, rest)
    } else {
        let j = spec_last_slash(base, trimmed);
        let comp = base.subrange(j + 1, trimmed);
        if comp =~= seq!['.'] || comp =~= seq!['.', '.'] {
            spec_push_name(base, rest)
        } else if j < 0 {
            rest
        } else {
            let qlen = spec_trim_len(base, j + 1);
            if qlen == 0 {
                base.subrange(0, j + 1) + rest
            } else {
                base.subrange(0, qlen) + seq!['/'] + rest
            }
        }
    }
}

#[verifier::loop_isolation(false)]
fn norm_end(base: &str, e: usize) -> (r: usize)
    requires
        e <= base@.len(),
    ensures
        r == spec_norm_end(base@, e as int),
        r <= e,
    decreases e,
{
    if e == 0 {
        return 0;
    }
    let c = base.get_char(e - 1);
    if c == '/' {
        norm_end(base, e - 1)
    } else if c == '.' && e >= 2 && base.get_char(e - 2) == '/' {
        norm_end(base, e - 1)
    } else {
        e
    }
}

#[verifier::loop_isolation(false)]
fn trim_trailing_slashes(base: &str, e: usize) -> (r: usize)
    requires
        e <= base@.len(),
    ensures
        r == spec_trim_len(base@, e as int),
        r <= e,
    decreases e,
{
    if e > 0 && base.get_char(e - 1) == '/' {
        trim_trailing_slashes(base, e - 1)
    } else {
        e
    }
}

#[verifier::loop_isolation(false)]
fn last_slash_before(base: &str, e: usize) -> (r: Option<usize>)
    requires
        e <= base@.len(),
    ensures
        match r {
            Some(p) => p == spec_last_slash(base@, e as int) && p < e,
            None => spec_last_slash(base@, e as int) == -1,
        },
    decreases e,
{
    if e == 0 {
        return None;
    }
    if base.get_char(e - 1) == '/' {
        Some(e - 1)
    } else {
        last_slash_before(base, e - 1)
    }
}

} // verus!
