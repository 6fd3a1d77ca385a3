//! The canonical path model: a leading marker plus validated segments,
//! parameterized by an OS profile. Construction runs the whole resolution
//! pipeline (prefix expansion, variable substitution, normalization,
//! validation); display renders natively or as contracted shorthand; equality
//! is case-insensitive over the rendered string while casing is preserved.

use vstd::prelude::*;
use vstd::seq_lib::*;

use crate::chars::ci_eq;
use crate::chars::ci_eq_char;
use crate::chars::is_slash;
use crate::chars::is_slash_char;
use crate::chars::lower_ascii_letter;
use crate::chars::lower_u32;
use crate::chars::push_char;
use crate::chars::str_ci_eq;
use crate::context::ResolutionContext;
use crate::envs::contract_envs;
use crate::envs::contract_spec;
use crate::envs::expand_envs;
use crate::envs::expand_spec;
use crate::envs::prefixed_spec;
use crate::envs::VarError;
use crate::errors::PathError;
use crate::os::Os;
use crate::os::OsProfile;
use crate::segment::lemma_segments_structural;
use crate::segment::segments_of;
use crate::segment::segs;

verus! {

/// NUL and `:` are forbidden in components on every profile.
pub open spec fn forbidden_always(c: char) -> bool {
    c as u32 == 0 || c == ':'
}

/// Characters forbidden in strict mode or on Windows: ASCII control
/// characters and the reserved punctuation set.
pub open spec fn forbidden_restrictive(c: char) -> bool {
    c as u32 <= 0x1F || c as u32 == 0x7F || c == '"' || c == '*' || c == '/' || c == '<' || c == '>'
        || c == '?' || c == '\\' || c == '|'
}

/// The position of the first `.` in a component, or its length.
pub open spec fn first_dot(c: Seq<char>, i: int) -> int
    decreases c.len() - i when 0 <= i <= c.len()
{
    if i >= c.len() {
        c.len() as int
    } else if c[i] == '.' {
        i
    } else {
        first_dot(c, i + 1)
    }
}

/// Case-insensitive match of a three-character sequence.
pub open spec fn ci_eq3(c: Seq<char>, a: char, b: char, d: char) -> bool {
    c.len() == 3 && ci_eq_char(c[0], a) && ci_eq_char(c[1], b) && ci_eq_char(c[2], d)
}

/// A reserved device name stem: CON, PRN, AUX, NUL, COM0-COM9, LPT0-LPT9,
/// compared case-insensitively.
pub open spec fn is_reserved_stem(st: Seq<char>) -> bool {
    ||| ci_eq3(st, 'c', 'o', 'n')
    ||| ci_eq3(st, 'p', 'r', 'n')
    ||| ci_eq3(st, 'a', 'u', 'x')
    ||| ci_eq3(st, 'n', 'u', 'l')
    ||| (st.len() == 4 && (ci_eq3(st.subrange(0, 3), 'c', 'o', 'm') || ci_eq3(
        st.subrange(0, 3),
        'l',
        'p',
        't',
    )) && 48 <= st[3] as u32 <= 57)
}

/// A component whose stem (the text before the first `.`, or the whole
/// component) is a reserved device name, with or without extension.
pub open spec fn reserved_component(c: Seq<char>) -> bool {
    is_reserved_stem(c.subrange(0, first_dot(c, 0)))
}

/// Everything validation checks of one component under a profile: length at
/// most 255, no always-forbidden character, and under a restrictive profile
/// no restricted character and no reserved device name.
pub open spec fn component_valid(c: Seq<char>, profile: OsProfile) -> bool {
    &&& c.len() <= 255
    &&& (forall|i: int| 0 <= i < c.len() ==> !forbidden_always(c[i]))
    &&& (profile.spec_restrictive() ==> (forall|i: int|
        0 <= i < c.len() ==> !forbidden_restrictive(c[i])) && !reserved_component(c))
}

/// What holds of every stored segment: non-empty, not the collapsed `.`,
/// free of separators, and valid under the profile.
pub open spec fn component_wf(c: Seq<char>, profile: OsProfile) -> bool {
    &&& c.len() > 0
    &&& c != seq!['.']
    &&& (forall|i: int| 0 <= i < c.len() ==> !is_slash_char(c[i]))
    &&& component_valid(c, profile)
}

proof fn lemma_first_dot_at(c: Seq<char>, i: int, k: int)
    requires
        0 <= i <= k <= c.len(),
        forall|m: int| i <= m < k ==> c[m] != '.',
        k == c.len() || c[k] == '.',
    ensures
        first_dot(c, i) == k,
    decreases k - i,
{
    if i < k {
        lemma_first_dot_at(c, i + 1, k);
    }
}

/// Is this component exactly the reserved-name check's subject under the
/// restrictive rules?
fn reserved_check(s: &str) -> (r: bool)
    ensures
        r == reserved_component(s@),
{
    let len = s.unicode_len();
    let mut d: usize = 0;
    let mut found = false;
    while d < len && !found
        invariant
            d <= len,
            len == s@.len(),
            found ==> d < len && s@[d as int] == '.',
            forall|m: int| 0 <= m < d ==> s@[m] != '.',
        decreases len - d, (if found { 0int } else { 1int }),
    {
        if s.get_char(d) == '.' {
            found = true;
        } else {
            d = d + 1;
        }
    }
    proof {
        lemma_first_dot_at(s@, 0, d as int);
    }
    let ghost stem = s@.subrange(0, d as int);
    if d == 3 {
        let c0 = s.get_char(0);
        let c1 = s.get_char(1);
        let c2 = s.get_char(2);
        proof {
            assert(stem[0] == s@[0] && stem[1] == s@[1] && stem[2] == s@[2]);
        }
        ci3(c0, c1, c2, 'c', 'o', 'n') || ci3(c0, c1, c2, 'p', 'r', 'n') || ci3(
            c0,
            c1,
            c2,
            'a',
            'u',
            'x',
        ) || ci3(c0, c1, c2, 'n', 'u', 'l')
    } else if d == 4 {
        let c0 = s.get_char(0);
        let c1 = s.get_char(1);
        let c2 = s.get_char(2);
        let c3 = s.get_char(3);
        let u3 = c3 as u32;
        proof {
            assert(stem[0] == s@[0] && stem[1] == s@[1] && stem[2] == s@[2] && stem[3] == s@[3]);
            assert(stem.subrange(0, 3) =~= s@.subrange(0, 3));
            assert(s@.subrange(0, 3)[0] == s@[0] && s@.subrange(0, 3)[1] == s@[1] && s@.subrange(
                0,
                3,
            )[2] == s@[2]);
        }
        (ci3(c0, c1, c2, 'c', 'o', 'm') || ci3(c0, c1, c2, 'l', 'p', 't')) && 48 <= u3 && u3 <= 57
    } else {
        proof {
            assert(!is_reserved_stem(stem));
        }
        false
    }
}

/// Case-insensitive comparison of three characters at once.
fn ci3(c0: char, c1: char, c2: char, a: char, b: char, d: char) -> (r: bool)
    ensures
        r == (ci_eq_char(c0, a) && ci_eq_char(c1, b) && ci_eq_char(c2, d)),
{
    crate::chars::char_ci_eq(c0, a) && crate::chars::char_ci_eq(c1, b) && crate::chars::char_ci_eq(
        c2,
        d,
    )
}

fn forbidden_always_exec(c: char) -> (r: bool)
    ensures
        r == forbidden_always(c),
{
    (c as u32) == 0 || c == ':'
}

fn forbidden_restrictive_exec(c: char) -> (r: bool)
    ensures
        r == forbidden_restrictive(c),
{
    let u = c as u32;
    u <= 0x1F || u == 0x7F || c == '"' || c == '*' || c == '/' || c == '<' || c == '>' || c == '?'
        || c == '\\' || c == '|'
}

/// Validates one component against the profile's rules, naming the violated
/// rule on failure.
pub fn validate_component(s: &str, profile: OsProfile) -> (r: Result<(), PathError>)
    ensures
        r is Ok <==> component_valid(s@, profile),
        match r {
            Ok(()) => true,
            Err(PathError::ComponentTooLong { component }) => component@ == s@ && s@.len() > 255,
            Err(PathError::ForbiddenChar { component, ch }) => component@ == s@ && exists|i: int|
                0 <= i < s@.len() && s@[i] == ch && (forbidden_always(ch)
                    || (profile.spec_restrictive() && forbidden_restrictive(ch))),
            Err(PathError::ReservedName { component }) => component@ == s@
                && profile.spec_restrictive() && reserved_component(s@),
            Err(_) => false,
        },
{
    let len = s.unicode_len();
    if len > 255 {
        return Err(PathError::ComponentTooLong { component: String::from_str(s) });
    }
    let restrictive = profile.restrictive();
    let mut i: usize = 0;
    while i < len
        invariant
            i <= len,
            len == s@.len(),
            forall|j: int| 0 <= j < i ==> !forbidden_always(s@[j]),
            restrictive == profile.spec_restrictive(),
            restrictive ==> forall|j: int| 0 <= j < i ==> !forbidden_restrictive(s@[j]),
        decreases len - i,
    {
        let c = s.get_char(i);
        if forbidden_always_exec(c) || (restrictive && forbidden_restrictive_exec(c)) {
            return Err(PathError::ForbiddenChar { component: String::from_str(s), ch: c });
        }
        i = i + 1;
    }
    if restrictive && reserved_check(s) {
        return Err(PathError::ReservedName { component: String::from_str(s) });
    }
    Ok(())
}

/// The leading marker of a canonical path.
#[derive(Clone, Copy, Debug)]
pub enum Marker {
    NoMarker,
    CurrentDir,
    HomeDir,
    Rooted,
    Drive(char),
}

/// The structured canonical form: marker plus validated segments, immutable
/// once constructed.
#[derive(Debug)]
pub struct PathInner {
    profile: OsProfile,
    marker: Marker,
    segments: Vec<String>,
}

/// Joins segments with one separator between each pair.
pub open spec fn join_with(ss: Seq<Seq<char>>, sep: char) -> Seq<char>
    decreases ss.len(),
{
    if ss.len() == 0 {
        Seq::empty()
    } else if ss.len() == 1 {
        ss[0]
    } else {
        ss[0] + seq![sep] + join_with(ss.drop_first(), sep)
    }
}

pub broadcast proof fn lemma_join_push(ss: Seq<Seq<char>>, x: Seq<char>, sep: char)
    ensures
        #[trigger] join_with(ss.push(x), sep) == if ss.len() == 0 {
            x
        } else {
            join_with(ss, sep) + seq![sep] + x
        },
    decreases ss.len(),
{
    if ss.len() == 0 {
        assert(ss.push(x)[0] == x);
        assert(ss.push(x).len() == 1);
    } else if ss.len() == 1 {
        assert(ss.push(x).drop_first() =~= seq![x]);
        assert(ss.push(x)[0] == ss[0]);
        assert(join_with(seq![x], sep) == x);
        assert(join_with(ss.push(x), sep) == ss[0] + seq![sep] + x);
    } else {
        assert(ss.push(x).drop_first() =~= ss.drop_first().push(x));
        lemma_join_push(ss.drop_first(), x, sep);
        assert(join_with(ss.push(x), sep) == ss[0] + seq![sep] + join_with(
            ss.drop_first().push(x),
            sep,
        ));
        assert((ss[0] + seq![sep] + (join_with(ss.drop_first(), sep) + seq![sep] + x)) =~= (ss[0]
            + seq![sep] + join_with(ss.drop_first(), sep)) + seq![sep] + x);
    }
}

/// The drive letter recognized only at the very start of the expanded text.
pub open spec fn drive_of(exp: Seq<char>) -> Option<char> {
    if exp.len() >= 2 && crate::chars::is_ascii_letter(exp[0]) && exp[1] == ':' {
        Some(exp[0])
    } else {
        None
    }
}

/// The expanded text with a recognized drive prefix removed.
pub open spec fn after_drive(exp: Seq<char>) -> Seq<char> {
    if drive_of(exp) is Some {
        exp.skip(2)
    } else {
        exp
    }
}

/// Drops the no-op `.` pieces from a normalized segment list.
pub open spec fn drop_dot_segments(ss: Seq<Seq<char>>) -> Seq<Seq<char>> {
    ss.filter(|c: Seq<char>| c != seq!['.'])
}

/// The segments the model keeps: normalized, with collapsed `.` pieces
/// dropped.
pub open spec fn kept_segments(exp: Seq<char>) -> Seq<Seq<char>> {
    drop_dot_segments(segments_of(after_drive(exp)))
}

proof fn lemma_drop_dot_empty()
    ensures
        drop_dot_segments(Seq::<Seq<char>>::empty()) == Seq::<Seq<char>>::empty(),
{
    reveal(Seq::filter);
}

proof fn lemma_drop_dot_push(ss: Seq<Seq<char>>, x: Seq<char>)
    ensures
        drop_dot_segments(ss.push(x)) == if x != seq!['.'] {
            drop_dot_segments(ss).push(x)
        } else {
            drop_dot_segments(ss)
        },
{
    reveal(Seq::filter);
    assert(ss.push(x).drop_last() =~= ss);
    assert(ss.push(x).last() == x);
}

proof fn lemma_drop_dot_contains(ss: Seq<Seq<char>>, i: int)
    requires
        0 <= i < ss.len(),
        ss[i] != seq!['.'],
    ensures
        drop_dot_segments(ss).contains(ss[i]),
    decreases ss.len(),
{
    reveal(Seq::filter);
    if i == ss.len() - 1 {
        assert(ss.drop_last().push(ss.last()) =~= ss);
        lemma_drop_dot_push(ss.drop_last(), ss.last());
        assert(drop_dot_segments(ss).last() == ss[i]);
    } else {
        lemma_drop_dot_contains(ss.drop_last(), i);
        assert(ss.drop_last()[i] == ss[i]);
        let sub = drop_dot_segments(ss.drop_last());
        let k = choose|k: int| 0 <= k < sub.len() && sub[k] == ss[i];
        assert(ss.drop_last().push(ss.last()) =~= ss);
        lemma_drop_dot_push(ss.drop_last(), ss.last());
        assert(drop_dot_segments(ss)[k] == ss[i]);
    }
}

/// What a successful resolution of `raw` guarantees of the produced path:
/// well-formed, under the requested profile, its marker read off the start of
/// the expanded text (drive letter lower-cased; a leading separator rooting
/// the path), and its segments the normalized, validated remainder.
pub open spec fn built_ok(
    p: PathInner,
    raw: Seq<char>,
    ctx: ResolutionContext,
    profile: OsProfile,
) -> bool {
    &&& p.wf()
    &&& p.spec_profile() == profile
    &&& expand_spec(raw, ctx, profile.os) is Ok
    &&& ({
        let exp = expand_spec(raw, ctx, profile.os)->Ok_0;
        &&& p.seg_views() == kept_segments(exp)
        &&& (match drive_of(exp) {
            Some(d0) => p.spec_marker() matches Marker::Drive(d) && d as u32 == lower_u32(d0),
            None => if exp.len() > 0 && is_slash_char(exp[0]) {
                p.spec_marker() is Rooted
            } else {
                p.spec_marker() is NoMarker
            },
        })
    })
}

/// When and how resolution of `raw` fails: the expansion errors carried
/// through verbatim, or a validation error on some kept segment.
pub open spec fn build_err(
    e: PathError,
    raw: Seq<char>,
    ctx: ResolutionContext,
    profile: OsProfile,
) -> bool {
    match expand_spec(raw, ctx, profile.os) {
        Err(VarError::EmptyKey) => e matches PathError::EmptyEnvVar { path } && path@
            == prefixed_spec(raw, ctx, profile.os),
        Err(VarError::Undefined(n)) => e matches PathError::UndefinedEnvVar { name } && name@ == n,
        Ok(exp) => match e {
            PathError::ComponentTooLong { component } => kept_segments(exp).contains(component@)
                && component@.len() > 255,
            PathError::ForbiddenChar { component, ch } => kept_segments(exp).contains(component@)
                && (exists|i: int| 0 <= i < component@.len() && component@[i] == ch) && (
            forbidden_always(ch) || (profile.spec_restrictive() && forbidden_restrictive(ch))),
            PathError::ReservedName { component } => kept_segments(exp).contains(component@)
                && profile.spec_restrictive() && reserved_component(component@),
            _ => false,
        },
    }
}

impl PathInner {
    pub closed spec fn spec_profile(self) -> OsProfile {
        self.profile
    }

    pub closed spec fn spec_marker(self) -> Marker {
        self.marker
    }

    /// The stored segment texts.
    pub closed spec fn seg_views(self) -> Seq<Seq<char>> {
        self.segments@.map_values(|s: String| s@)
    }

    /// The structural invariant every constructed path has.
    pub open spec fn wf(self) -> bool {
        &&& !(self.spec_marker() is CurrentDir) && !(self.spec_marker() is HomeDir)
        &&& (self.spec_marker() matches Marker::Drive(d) ==> 97 <= d as u32 <= 122)
        &&& (forall|i: int|
            0 <= i < self.seg_views().len() ==> component_wf(
                #[trigger] self.seg_views()[i],
                self.spec_profile(),
            ))
    }

    /// The native rendering: marker then segments joined with the profile's
    /// separator; a drive letter is kept on Windows and dropped (the path
    /// treated as rooted) elsewhere.
    pub open spec fn render_native_spec(self) -> Seq<char> {
        let sep = self.spec_profile().os.spec_sep();
        let body = join_with(self.seg_views(), sep);
        match self.spec_marker() {
            Marker::NoMarker => body,
            Marker::Rooted => seq![sep] + body,
            Marker::CurrentDir => if self.seg_views().len() == 0 {
                seq!['.']
            } else {
                seq!['.', sep] + body
            },
            Marker::HomeDir => if self.seg_views().len() == 0 {
                seq!['~']
            } else {
                seq!['~', sep] + body
            },
            Marker::Drive(d) => if self.spec_profile().os is Windows {
                seq![d, ':', sep] + body
            } else {
                seq![sep] + body
            },
        }
    }

    /// The raw in-memory rendering: fixed `/` separator, drive letter kept,
    /// independent of host.
    pub open spec fn render_memory_spec(self) -> Seq<char> {
        let body = join_with(self.seg_views(), '/');
        match self.spec_marker() {
            Marker::NoMarker => body,
            Marker::Rooted => seq!['/'] + body,
            Marker::CurrentDir => if self.seg_views().len() == 0 {
                seq!['.']
            } else {
                seq!['.', '/'] + body
            },
            Marker::HomeDir => if self.seg_views().len() == 0 {
                seq!['~']
            } else {
                seq!['~', '/'] + body
            },
            Marker::Drive(d) => seq![d, ':', '/'] + body,
        }
    }

    /// Resolves `raw` against the context and validates it under the
    /// profile, producing the canonical form.
    pub fn new(raw: &str, ctx: &ResolutionContext, profile: OsProfile) -> (r: Result<
        PathInner,
        PathError,
    >)
        ensures
            match r {
                Ok(p) => built_ok(p, raw@, *ctx, profile),
                Err(e) => build_err(e, raw@, *ctx, profile),
            },
    {
        let expanded = match expand_envs(raw, ctx, profile.os) {
            Ok(s) => s,
            Err(e) => {
                return Err(e);
            },
        };
        let ghost exp = expanded@;
        let elen = expanded.as_str().unicode_len();
        let mut marker = Marker::NoMarker;
        let rest: &str = if elen >= 2 && ascii_letter_exec(expanded.as_str().get_char(0))
            && expanded.as_str().get_char(1) == ':' {
            let d = lower_ascii_letter(expanded.as_str().get_char(0));
            marker = Marker::Drive(d);
            let t = expanded.as_str().substring_char(2, elen);
            proof {
                assert(t@ =~= exp.skip(2));
            }
            t
        } else if elen >= 1 && is_slash(expanded.as_str().get_char(0)) {
            marker = Marker::Rooted;
            expanded.as_str()
        } else {
            expanded.as_str()
        };
        proof {
            assert(rest@ == after_drive(exp));
        }
        let texts = segs(rest);
        let mut kept: Vec<String> = Vec::new();
        let ghost all = texts@.map_values(|s: String| s@);
        let mut i: usize = 0;
        proof {
            assert(all.take(0) =~= Seq::<Seq<char>>::empty());
            lemma_drop_dot_empty();
        }
        while i < texts.len()
            invariant
                i <= texts@.len(),
                all == texts@.map_values(|s: String| s@),
                all == segments_of(after_drive(exp)),
                expand_spec(raw@, *ctx, profile.os) == Ok::<Seq<char>, VarError>(exp),
                kept@.map_values(|s: String| s@) == drop_dot_segments(all.take(i as int)),
                forall|j: int|
                    0 <= j < kept@.len() ==> component_wf(#[trigger] kept@[j]@, profile),
            decreases texts@.len() - i,
        {
            let ghost pre = all.take(i as int);
            let t: &String = &texts[i];
            let tlen = t.as_str().unicode_len();
            let is_dot = tlen == 1 && t.as_str().get_char(0) == '.';
            proof {
                assert(all[i as int] == t@);
                if is_dot {
                    assert(t@ =~= seq!['.']);
                } else {
                    if t@.len() == 1 && t@[0] == '.' {
                        assert(is_dot);
                    }
                    assert(t@ != seq!['.']);
                }
                assert(all.take(i + 1) =~= pre.push(t@));
                lemma_drop_dot_push(pre, t@);
            }
            if !is_dot {
                match validate_component(t.as_str(), profile) {
                    Ok(()) => {},
                    Err(e) => {
                        proof {
                            lemma_drop_dot_contains(all, i as int);
                            let ks = kept_segments(exp);
                            assert(ks.contains(t@));
                            let kk = choose|kk: int| 0 <= kk < ks.len() && ks[kk] == t@;
                            assert(0 <= kk < kept_segments(exp).len() && !component_valid(
                                kept_segments(exp)[kk],
                                profile,
                            ));
                            assert(e is ComponentTooLong || e is ForbiddenChar
                                || e is ReservedName);
                            assert(match expand_spec(raw@, *ctx, profile.os) {
                                Ok(e2) => e2 == exp,
                                _ => false,
                            });
                            assert(build_err(e, raw@, *ctx, profile));
                        }
                        return Err(e);
                    },
                }
                proof {
                    lemma_segments_structural(after_drive(exp), i as int);
                }
                kept.push(t.clone());
                proof {
                    assert(kept@.map_values(|s: String| s@) =~= drop_dot_segments(pre).push(t@));
                }
            }
            i = i + 1;
        }
        proof {
            assert(all.take(all.len() as int) =~= all);
        }
        let r = PathInner { profile, marker, segments: kept };
        proof {
            assert(r.seg_views() == kept_segments(exp));
        }
        Ok(r)
    }

    /// The active profile.
    pub fn profile(&self) -> (r: OsProfile)
        ensures
            r == self.spec_profile(),
    {
        self.profile
    }

    /// The leading marker.
    pub fn marker(&self) -> (r: Marker)
        ensures
            r == self.spec_marker(),
    {
        self.marker
    }

    /// How many segments the path holds.
    pub fn segment_count(&self) -> (r: usize)
        ensures
            r == self.seg_views().len(),
    {
        self.segments.len()
    }

    /// The segment at `index`, original casing preserved.
    pub fn segment_at(&self, index: usize) -> (r: &str)
        requires
            index < self.seg_views().len(),
        ensures
            r@ == self.seg_views()[index as int],
    {
        self.segments[index].as_str()
    }

    /// Joins the stored segments with `sep`.
    fn join_segments(&self, sep: char) -> (r: String)
        ensures
            r@ == join_with(self.seg_views(), sep),
    {
        let ghost views = self.seg_views();
        let mut out = String::new();
        let mut i: usize = 0;
        while i < self.segments.len()
            invariant
                i <= self.segments@.len(),
                views == self.seg_views(),
                out@ == join_with(views.take(i as int), sep),
            decreases self.segments@.len() - i,
        {
            let ghost pre = views.take(i as int);
            if i > 0 {
                push_char(&mut out, sep);
            }
            out.append(self.segments[i].as_str());
            i = i + 1;
            proof {
                assert(views.take(i as int) =~= pre.push(views[i - 1]));
                lemma_join_push(pre, views[i - 1], sep);
                if pre.len() == 0 {
                    assert(out@ =~= views[i - 1]);
                } else {
                    assert(out@ =~= join_with(pre, sep) + seq![sep] + views[i - 1]);
                }
            }
        }
        proof {
            assert(views.take(views.len() as int) =~= views);
        }
        out
    }

    /// Renders the canonical path natively for its profile.
    pub fn native_string(&self) -> (r: String)
        ensures
            r@ == self.render_native_spec(),
    {
        let sep = self.profile.os.sep();
        let body = self.join_segments(sep);
        let mut out = String::new();
        match self.marker {
            Marker::NoMarker => {},
            Marker::Rooted => {
                push_char(&mut out, sep);
            },
            Marker::CurrentDir => {
                push_char(&mut out, '.');
                if self.segments.len() == 0 {
                    proof {
                        assert(out@ =~= seq!['.']);
                    }
                    return out;
                }
                push_char(&mut out, sep);
                proof {
                    assert(out@ =~= seq!['.', sep]);
                }
            },
            Marker::HomeDir => {
                push_char(&mut out, '~');
                if self.segments.len() == 0 {
                    proof {
                        assert(out@ =~= seq!['~']);
                    }
                    return out;
                }
                push_char(&mut out, sep);
                proof {
                    assert(out@ =~= seq!['~', sep]);
                }
            },
            Marker::Drive(d) => {
                if matches!(self.profile.os, Os::Windows) {
                    push_char(&mut out, d);
                    push_char(&mut out, ':');
                    push_char(&mut out, sep);
                    proof {
                        assert(out@ =~= seq![d, ':', sep]);
                    }
                } else {
                    push_char(&mut out, sep);
                }
            },
        }
        let r = out.concat(body.as_str());
        proof {
            assert(r@ =~= self.render_native_spec());
        }
        r
    }

    /// Renders the raw in-memory form, quoted, independent of host.
    pub fn debug_string(&self) -> (r: String)
        ensures
            r@ == seq!['"'] + self.render_memory_spec() + seq!['"'],
    {
        let body = self.join_segments('/');
        let mut out = String::new();
        push_char(&mut out, '"');
        match self.marker {
            Marker::NoMarker => {},
            Marker::Rooted => {
                push_char(&mut out, '/');
            },
            Marker::CurrentDir => {
                push_char(&mut out, '.');
                if self.segments.len() > 0 {
                    push_char(&mut out, '/');
                }
            },
            Marker::HomeDir => {
                push_char(&mut out, '~');
                if self.segments.len() > 0 {
                    push_char(&mut out, '/');
                }
            },
            Marker::Drive(d) => {
                push_char(&mut out, d);
                push_char(&mut out, ':');
                push_char(&mut out, '/');
            },
        }
        let mut r = out.concat(body.as_str());
        push_char(&mut r, '"');
        proof {
            if self.spec_marker() matches Marker::CurrentDir && self.seg_views().len() == 0 {
                assert(r@ =~= seq!['"'] + self.render_memory_spec() + seq!['"']);
            } else if self.spec_marker() matches Marker::HomeDir && self.seg_views().len() == 0 {
                assert(r@ =~= seq!['"'] + self.render_memory_spec() + seq!['"']);
            } else {
                assert(r@ =~= seq!['"'] + self.render_memory_spec() + seq!['"']);
            }
        }
        r
    }

    /// The case-folded native rendering. Two canonical paths compare equal
    /// exactly when their keys are equal texts (see
    /// `lemma_key_decides_equality`), so where a case-insensitive hash or
    /// order is needed, hash or order this key in the path's stead.
    pub fn comparison_key(&self) -> (r: String)
        ensures
            r@.len() == self.render_native_spec().len(),
            forall|i: int|
                0 <= i < r@.len() ==> (#[trigger] r@[i]) as u32 == lower_u32(
                    self.render_native_spec()[i],
                ),
    {
        let native = self.native_string();
        let len = native.as_str().unicode_len();
        let mut out = String::new();
        let mut i: usize = 0;
        while i < len
            invariant
                i <= len,
                len == native@.len(),
                native@ == self.render_native_spec(),
                out@.len() == i,
                forall|k: int|
                    0 <= k < i ==> (#[trigger] out@[k]) as u32 == lower_u32(native@[k]),
            decreases len - i,
        {
            let c = native.as_str().get_char(i);
            let u = c as u32;
            let lc = if 65 <= u && u <= 90 {
                lower_ascii_letter(c)
            } else {
                c
            };
            push_char(&mut out, lc);
            i = i + 1;
        }
        out
    }

    /// The contracted display pair: the shorthand marker (if home or cwd
    /// matches) and the remainder. Best-effort and display-only.
    pub fn as_contracted(&self, ctx: &ResolutionContext) -> (r: (Option<char>, String))
        ensures
            r.0 == contract_spec(self.render_native_spec(), *ctx, self.spec_profile().os).0,
            r.1@ == contract_spec(self.render_native_spec(), *ctx, self.spec_profile().os).1,
    {
        let native = self.native_string();
        contract_envs(native.as_str(), ctx, self.profile.os)
    }

    /// Renders for display: the shortest shorthand form against the context,
    /// or the native form when neither home nor cwd matches.
    pub fn shorthand_string(&self, ctx: &ResolutionContext) -> (r: String)
        ensures
            ({
                let con = contract_spec(self.render_native_spec(), *ctx, self.spec_profile().os);
                match con.0 {
                    Some(m) => r@ == seq![m, self.spec_profile().os.spec_sep()] + con.1,
                    None => r@ == con.1,
                }
            }),
    {
        let (m, rem) = self.as_contracted(ctx);
        match m {
            Some(c) => {
                let mut out = String::new();
                push_char(&mut out, c);
                push_char(&mut out, self.profile.os.sep());
                let r = out.concat(rem.as_str());
                proof {
                    assert(r@ =~= seq![c, self.spec_profile().os.spec_sep()] + rem@);
                }
                r
            },
            None => rem,
        }
    }
}

impl PartialEq for PathInner {
    /// Case-insensitive comparison over the fully rendered string.
    fn eq(&self, other: &PathInner) -> (r: bool) {
        str_ci_eq(self.native_string().as_str(), other.native_string().as_str())
    }
}

impl vstd::std_specs::cmp::PartialEqSpecImpl for PathInner {
    open spec fn obeys_eq_spec() -> bool {
        true
    }

    open spec fn eq_spec(&self, other: &PathInner) -> bool {
        ci_eq(self.render_native_spec(), other.render_native_spec())
    }
}

fn ascii_letter_exec(c: char) -> (r: bool)
    ensures
        r == crate::chars::is_ascii_letter(c),
{
    let u = c as u32;
    (65 <= u && u <= 90) || (97 <= u && u <= 122)
}

} // verus!
