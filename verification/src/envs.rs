//! Prefix expansion and contraction of `~`/`.` shorthand, and the
//! environment-variable expander: a single left-to-right pass that substitutes
//! `${NAME}` / `%NAME%` references bounded by path separators and emits every
//! malformed span literally, unchanged and not re-scanned.

use vstd::prelude::*;

use crate::chars::env_char;
use crate::chars::is_env_char;
use crate::chars::is_slash;
use crate::chars::is_slash_char;
use crate::chars::push_char;
use crate::context::ResolutionContext;
use crate::errors::PathError;
use crate::os::Os;

verus! {

/// How a variable reference can fail: an empty key, or a name the context
/// does not define.
pub enum VarError {
    EmptyKey,
    Undefined(Seq<char>),
}

/// A character that ends key accumulation: the closing delimiter, a
/// separator, or a character illegal in environment-variable names.
pub open spec fn key_stopper(c: char, cl: char) -> bool {
    c == cl || is_slash_char(c) || !is_env_char(c)
}

/// The first position at or after `j` where key accumulation stops, or the
/// length of `s` if it runs off the end.
pub open spec fn key_end(s: Seq<char>, j: int, cl: char) -> int
    decreases s.len() - j when 0 <= j <= s.len()
{
    if j >= s.len() {
        s.len() as int
    } else if key_stopper(s[j], cl) {
        j
    } else {
        key_end(s, j + 1, cl)
    }
}

proof fn lemma_key_end_bounds(s: Seq<char>, j: int, cl: char)
    requires
        0 <= j <= s.len(),
    ensures
        j <= key_end(s, j, cl) <= s.len(),
    decreases s.len() - j,
{
    if j < s.len() && !key_stopper(s[j], cl) {
        lemma_key_end_bounds(s, j + 1, cl);
    }
}

proof fn lemma_key_end_at(s: Seq<char>, j: int, k: int, cl: char)
    requires
        0 <= j <= k <= s.len(),
        forall|m: int| j <= m < k ==> !key_stopper(s[m], cl),
        k == s.len() || key_stopper(s[k], cl),
    ensures
        key_end(s, j, cl) == k,
    decreases k - j,
{
    if j < k {
        lemma_key_end_at(s, j + 1, k, cl);
    }
}

/// One pass of the expander from position `i` to the end of `s`.
///
/// A reference may open only at the start of the string or directly after a
/// separator (`prev_slash` starts `true`). The curly form runs from `${` to
/// `}`, the percent form from `%` to `%`. Accumulation aborts early on a
/// separator or illegal name character, emitting the consumed span literally;
/// a closed reference not followed by a separator or the end is emitted
/// literally as well. An accepted reference fails on an empty key or an
/// undefined name, and otherwise splices the bound value in place.
pub open spec fn scan_vars(s: Seq<char>, i: int, prev_slash: bool, ctx: ResolutionContext) -> Result<
    Seq<char>,
    VarError,
>
    decreases s.len() - i when 0 <= i <= s.len() via scan_vars_decreases
{
    if i >= s.len() {
        Ok(Seq::empty())
    } else {
        let c = s[i];
        let curly = c == '$' && prev_slash && i + 1 < s.len() && s[i + 1] == '{';
        let prcnt = c == '%' && prev_slash;
        if curly || prcnt {
            let j = if curly {
                i + 2
            } else {
                i + 1
            };
            let cl = if curly {
                '}'
            } else {
                '%'
            };
            let k = key_end(s, j, cl);
            if k >= s.len() {
                Ok(s.subrange(i, s.len() as int))
            } else if s[k] == cl {
                if k + 1 >= s.len() || is_slash_char(s[k + 1]) {
                    if k == j {
                        Err(VarError::EmptyKey)
                    } else {
                        match ctx.lookup_spec(s.subrange(j, k)) {
                            Some(v) => match scan_vars(s, k + 1, false, ctx) {
                                Ok(rest) => Ok(v + rest),
                                Err(e) => Err(e),
                            },
                            None => Err(VarError::Undefined(s.subrange(j, k))),
                        }
                    }
                } else {
                    match scan_vars(s, k + 1, false, ctx) {
                        Ok(rest) => Ok(s.subrange(i, k + 1) + rest),
                        Err(e) => Err(e),
                    }
                }
            } else {
                match scan_vars(s, k + 1, false, ctx) {
                    Ok(rest) => Ok(s.subrange(i, k + 1) + rest),
                    Err(e) => Err(e),
                }
            }
        } else {
            match scan_vars(s, i + 1, is_slash_char(c), ctx) {
                Ok(rest) => Ok(seq![c] + rest),
                Err(e) => Err(e),
            }
        }
    }
}

#[via_fn]
proof fn scan_vars_decreases(s: Seq<char>, i: int, prev_slash: bool, ctx: ResolutionContext) {
    if 0 <= i < s.len() {
        if i + 1 <= s.len() {
            lemma_key_end_bounds(s, i + 1, '%');
        }
        if i + 2 <= s.len() {
            lemma_key_end_bounds(s, i + 2, '}');
        }
    }
}

/// How the executable expander's result must relate to the pass over `path`.
pub open spec fn expand_vars_matches(
    r: Result<String, PathError>,
    sc: Result<Seq<char>, VarError>,
    path: Seq<char>,
) -> bool {
    match r {
        Ok(out) => sc == Ok::<Seq<char>, VarError>(out@),
        Err(e) => match sc {
            Ok(_) => false,
            Err(VarError::EmptyKey) => e matches PathError::EmptyEnvVar { path: p } && p@ == path,
            Err(VarError::Undefined(n)) => e matches PathError::UndefinedEnvVar { name } && name@
                == n,
        },
    }
}

/// Substitutes every accepted variable reference in `path` against `ctx`,
/// in one left-to-right pass.
pub fn expand_vars(path: &str, ctx: &ResolutionContext) -> (r: Result<String, PathError>)
    ensures
        expand_vars_matches(r, scan_vars(path@, 0, true, *ctx), path@),
{
    let ghost s = path@;
    let len = path.unicode_len();
    let mut out = String::new();
    let mut i: usize = 0;
    let mut prev_slash = true;
    while i < len
        invariant
            i <= len,
            len == s.len(),
            s == path@,
            scan_vars(s, 0, true, *ctx) == (match scan_vars(s, i as int, prev_slash, *ctx) {
                Ok(rest) => Ok::<Seq<char>, VarError>(out@ + rest),
                Err(e) => Err(e),
            }),
        decreases len - i,
    {
        let ghost old_out = out@;
        let c = path.get_char(i);
        let curly = c == '$' && prev_slash && i + 1 < len && path.get_char(i + 1) == '{';
        let prcnt = c == '%' && prev_slash;
        if curly || prcnt {
            let j = if curly {
                i + 2
            } else {
                i + 1
            };
            let cl = if curly {
                '}'
            } else {
                '%'
            };
            let mut k = j;
            let mut stopped = false;
            while k < len && !stopped
                invariant
                    j <= k <= len,
                    len == s.len(),
                    s == path@,
                    forall|m: int| j <= m < k ==> !key_stopper(s[m], cl),
                    stopped ==> k < len && key_stopper(s[k as int], cl),
                decreases len - k, (if stopped { 0int } else { 1int }),
            {
                let ck = path.get_char(k);
                if ck == cl || is_slash(ck) || !env_char(ck) {
                    stopped = true;
                } else {
                    k = k + 1;
                }
            }
            proof {
                lemma_key_end_at(s, j as int, k as int, cl);
                assert(key_end(s, j as int, cl) == k);
            }
            if k >= len {
                // the reference ran off the end: the rest is literal
                let ghost span = s.subrange(i as int, len as int);
                out.append(path.substring_char(i, len));
                i = len;
                proof {
                    assert(old_out + span =~= out@);
                    assert(out@ + Seq::<char>::empty() =~= out@);
                }
            } else {
                let ck = path.get_char(k);
                if ck == cl {
                    let valid_end = k + 1 >= len || is_slash(path.get_char(k + 1));
                    if valid_end {
                        if k == j {
                            return Err(PathError::EmptyEnvVar { path: String::from_str(path) });
                        }
                        let key = path.substring_char(j, k);
                        match ctx.lookup(key) {
                            Some(v) => {
                                out.append(v.as_str());
                                i = k + 1;
                                prev_slash = false;
                                proof {
                                    let sc2 = scan_vars(s, i as int, false, *ctx);
                                    if sc2 is Ok {
                                        assert((old_out + v@) + sc2->Ok_0 =~= old_out + (v@
                                            + sc2->Ok_0));
                                    }
                                }
                            },
                            None => {
                                return Err(
                                    PathError::UndefinedEnvVar { name: String::from_str(key) },
                                );
                            },
                        }
                    } else {
                        // closed reference with a trailing character: literal
                        out.append(path.substring_char(i, k + 1));
                        let ghost span = s.subrange(i as int, k + 1);
                        i = k + 1;
                        prev_slash = false;
                        proof {
                            let sc2 = scan_vars(s, i as int, false, *ctx);
                            if sc2 is Ok {
                                assert((old_out + span) + sc2->Ok_0 =~= old_out + (span
                                    + sc2->Ok_0));
                            }
                        }
                    }
                } else {
                    // aborted accumulation: the consumed span is literal
                    out.append(path.substring_char(i, k + 1));
                    let ghost span = s.subrange(i as int, k + 1);
                    i = k + 1;
                    prev_slash = false;
                    proof {
                        let sc2 = scan_vars(s, i as int, false, *ctx);
                        if sc2 is Ok {
                            assert((old_out + span) + sc2->Ok_0 =~= old_out + (span + sc2->Ok_0));
                        }
                    }
                }
            }
        } else {
            push_char(&mut out, c);
            prev_slash = is_slash(c);
            i = i + 1;
            proof {
                let sc2 = scan_vars(s, i as int, prev_slash, *ctx);
                if sc2 is Ok {
                    assert(old_out.push(c) + sc2->Ok_0 =~= old_out + (seq![c] + sc2->Ok_0));
                }
            }
        }
    }
    Ok(out)
}

/// Does the path open with the home shorthand (`~` alone, `~/` or `~\`)?
pub open spec fn starts_home(s: Seq<char>) -> bool {
    s.len() >= 1 && s[0] == '~' && (s.len() == 1 || is_slash_char(s[1]))
}

/// Does the path open with the current-directory shorthand (`.` alone,
/// `./` or `.\`)?
pub open spec fn starts_current(s: Seq<char>) -> bool {
    s.len() >= 1 && s[0] == '.' && (s.len() == 1 || is_slash_char(s[1]))
}

/// The three start forms a raw path may have.
pub enum Start {
    Home,
    Current,
    NoPrefix,
}

impl Start {
    /// Classifies the start of a raw path.
    pub fn from(path: &str) -> (r: Start)
        ensures
            (r is Home) == starts_home(path@),
            (r is Current) == starts_current(path@),
            (r is NoPrefix) == (!starts_home(path@) && !starts_current(path@)),
    {
        let len = path.unicode_len();
        if len >= 1 {
            let c0 = path.get_char(0);
            let sep_ok = len == 1 || is_slash(path.get_char(1));
            if c0 == '~' && sep_ok {
                return Start::Home;
            }
            if c0 == '.' && sep_ok {
                return Start::Current;
            }
        }
        Start::NoPrefix
    }
}

/// Joins an absolute prefix and a remainder, inserting one native separator
/// unless the prefix already ends with one or the remainder already starts
/// with one.
pub open spec fn join_prefix(base: Seq<char>, rest: Seq<char>, os: Os) -> Seq<char> {
    if (base.len() == 0 || !is_slash_char(base.last())) && (rest.len() == 0 || !is_slash_char(
        rest.first(),
    )) {
        base + seq![os.spec_sep()] + rest
    } else {
        base + rest
    }
}

/// Prepends the context's current working directory to `path`.
pub fn prefix_current_dir(path: &str, ctx: &ResolutionContext, os: Os) -> (r: String)
    ensures
        r@ == join_prefix(ctx.cwd@, path@, os),
{
    join_prefix_exec(ctx.cwd.as_str(), path, os)
}

/// Prepends the context's home directory to `path`.
pub fn prefix_home_dir(path: &str, ctx: &ResolutionContext, os: Os) -> (r: String)
    ensures
        r@ == join_prefix(ctx.home@, path@, os),
{
    join_prefix_exec(ctx.home.as_str(), path, os)
}

fn join_prefix_exec(base: &str, path: &str, os: Os) -> (r: String)
    ensures
        r@ == join_prefix(base@, path@, os),
{
    let blen = base.unicode_len();
    let plen = path.unicode_len();
    let mut out = String::from_str(base);
    let base_slash = blen > 0 && is_slash(base.get_char(blen - 1));
    let path_slash = plen > 0 && is_slash(path.get_char(0));
    if !base_slash && !path_slash {
        push_char(&mut out, os.sep());
        proof {
            assert(out@ =~= base@ + seq![os.spec_sep()]);
        }
    }
    out.append(path);
    out
}

/// Expands the shorthand start form, then substitutes variable references:
/// the construction-side half of the pipeline, before normalization.
pub open spec fn prefixed_spec(raw: Seq<char>, ctx: ResolutionContext, os: Os) -> Seq<char> {
    if starts_home(raw) {
        join_prefix(ctx.home@, raw.skip(1), os)
    } else if starts_current(raw) {
        join_prefix(ctx.cwd@, raw.skip(1), os)
    } else {
        raw
    }
}

/// The fully substituted text of `raw`, or how substitution fails.
pub open spec fn expand_spec(raw: Seq<char>, ctx: ResolutionContext, os: Os) -> Result<
    Seq<char>,
    VarError,
> {
    scan_vars(prefixed_spec(raw, ctx, os), 0, true, ctx)
}

/// Expands the leading shorthand marker against the context and substitutes
/// every accepted environment-variable reference.
pub fn expand_envs(raw: &str, ctx: &ResolutionContext, os: Os) -> (r: Result<String, PathError>)
    ensures
        expand_vars_matches(r, expand_spec(raw@, *ctx, os), prefixed_spec(raw@, *ctx, os)),
{
    let start = Start::from(raw);
    let pre: String = match start {
        Start::Current => {
            let rest = raw.substring_char(1, raw.unicode_len());
            proof {
                assert(rest@ =~= raw@.skip(1));
            }
            prefix_current_dir(rest, ctx, os)
        },
        Start::Home => {
            let rest = raw.substring_char(1, raw.unicode_len());
            proof {
                assert(rest@ =~= raw@.skip(1));
            }
            prefix_home_dir(rest, ctx, os)
        },
        Start::NoPrefix => String::from_str(raw),
    };
    expand_vars(pre.as_str(), ctx)
}

/// The remainder of `path` after the absolute prefix `start`, with one
/// trailing native separator of the matched prefix consumed; nothing when
/// `start` is no prefix of `path`.
pub open spec fn remove_abs_start_spec(path: Seq<char>, start: Seq<char>, os: Os) -> Option<
    Seq<char>,
> {
    if path.len() >= start.len() && path.subrange(0, start.len() as int) == start {
        let rest = path.skip(start.len() as int);
        if rest.len() > 0 && rest.first() == os.spec_sep() {
            Some(rest.skip(1))
        } else {
            Some(rest)
        }
    } else {
        None
    }
}

/// Strips the absolute prefix `start` (plus one trailing native separator)
/// from `path`, if it matches textually.
pub fn remove_abs_start(path: &str, start: &str, os: Os) -> (r: Option<String>)
    ensures
        match r {
            Some(rem) => remove_abs_start_spec(path@, start@, os) == Some(rem@),
            None => remove_abs_start_spec(path@, start@, os) is None,
        },
{
    let plen = path.unicode_len();
    let slen = start.unicode_len();
    if plen < slen {
        return None;
    }
    let mut m: usize = 0;
    while m < slen
        invariant
            m <= slen,
            slen <= plen,
            plen == path@.len(),
            slen == start@.len(),
            forall|t: int| 0 <= t < m ==> path@[t] == start@[t],
        decreases slen - m,
    {
        if path.get_char(m) != start.get_char(m) {
            proof {
                assert(path@.subrange(0, slen as int)[m as int] != start@[m as int]);
            }
            return None;
        }
        m = m + 1;
    }
    proof {
        assert(path@.subrange(0, slen as int) =~= start@);
    }
    let mut pos = slen;
    if pos < plen && path.get_char(pos) == os.sep() {
        pos = pos + 1;
    }
    let rem = String::from_str(path.substring_char(pos, plen));
    proof {
        let rest = path@.skip(slen as int);
        assert(rest.len() > 0 ==> rest.first() == path@[slen as int]);
        assert(rem@ =~= path@.subrange(pos as int, plen as int));
        if pos > slen {
            assert(rem@ =~= rest.skip(1));
        } else {
            assert(rem@ =~= rest);
        }
    }
    Some(rem)
}

/// The contracted display form: the remainder relative to home (`~`) or cwd
/// (`.`), whichever is shorter, ties favouring cwd; the unchanged path with
/// no marker when neither matches.
pub open spec fn contract_spec(path: Seq<char>, ctx: ResolutionContext, os: Os) -> (
    Option<char>,
    Seq<char>,
) {
    let home_rel = remove_abs_start_spec(path, ctx.home@, os);
    let cwd_rel = remove_abs_start_spec(path, ctx.cwd@, os);
    match (home_rel, cwd_rel) {
        (Some(h), Some(c)) => if h.len() < c.len() {
            (Some('~'), h)
        } else {
            (Some('.'), c)
        },
        (Some(h), None) => (Some('~'), h),
        (None, Some(c)) => (Some('.'), c),
        (None, None) => (None, path),
    }
}

/// Computes the shorthand form of an absolute path for display: best-effort,
/// never failing, and used only for display, never for equality.
pub fn contract_envs(path: &str, ctx: &ResolutionContext, os: Os) -> (r: (Option<char>, String))
    ensures
        r.0 == contract_spec(path@, *ctx, os).0,
        r.1@ == contract_spec(path@, *ctx, os).1,
{
    let home_rel = remove_abs_start(path, ctx.home.as_str(), os);
    let cwd_rel = remove_abs_start(path, ctx.cwd.as_str(), os);
    match (home_rel, cwd_rel) {
        (Some(h), Some(c)) => {
            if h.as_str().unicode_len() < c.as_str().unicode_len() {
                (Some('~'), h)
            } else {
                (Some('.'), c)
            }
        },
        (Some(h), None) => (Some('~'), h),
        (None, Some(c)) => (Some('.'), c),
        (None, None) => (None, String::from_str(path)),
    }
}

} // verus!
