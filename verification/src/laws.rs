//! The engine-wide laws: idempotence of normalization, the render/re-resolve
//! round trip for marker-free paths, and case-insensitivity of equality.

use vstd::prelude::*;
use vstd::std_specs::cmp::PartialEqSpec;
use vstd::utf8::char_u32_cast;

use crate::chars::ci_eq;
use crate::chars::ci_eq_char;
use crate::chars::is_slash_char;
use crate::chars::lower_u32;
use crate::context::is_absolute_text;
use crate::context::ResolutionContext;
use crate::envs::contract_spec;
use crate::envs::expand_spec;
use crate::envs::prefixed_spec;
use crate::envs::remove_abs_start_spec;
use crate::envs::scan_vars;
use crate::envs::starts_current;
use crate::envs::starts_home;
use crate::envs::VarError;
use crate::os::Os;
use crate::path_inner::after_drive;
use crate::path_inner::component_wf;
use crate::path_inner::drive_of;
use crate::path_inner::drop_dot_segments;
use crate::path_inner::join_with;
use crate::path_inner::kept_segments;
use crate::path_inner::lemma_join_push;
use crate::path_inner::Marker;
use crate::path_inner::PathInner;
use crate::segment::cancel_adjacent;
use crate::segment::drop_empty_pieces;
use crate::segment::lemma_drop_empty_none;
use crate::segment::lemma_drop_empty_push;
use crate::segment::lemma_segments_structural;
use crate::segment::lemma_split_nonempty;
use crate::segment::normalize_pieces;
use crate::segment::parent_marker;
use crate::segment::segments_of;
use crate::segment::split_slash;

verus! {

proof fn lemma_split_noslash_single(s: Seq<char>)
    requires
        forall|j: int| 0 <= j < s.len() ==> !is_slash_char(#[trigger] s[j]),
    ensures
        split_slash(s) == seq![s],
    decreases s.len(),
{
    if s.len() == 0 {
        assert(s =~= Seq::<char>::empty());
        assert(split_slash(s) =~= seq![s]);
    } else {
        lemma_split_noslash_single(s.drop_last());
        assert(!is_slash_char(s.last()));
        assert(s.drop_last().push(s.last()) =~= s);
        assert(split_slash(s) =~= seq![s]);
    }
}

proof fn lemma_split_append_piece(a: Seq<char>, x: Seq<char>, sep: char)
    requires
        is_slash_char(sep),
        forall|j: int| 0 <= j < x.len() ==> !is_slash_char(#[trigger] x[j]),
    ensures
        split_slash(a + seq![sep] + x) == split_slash(a).push(x),
    decreases x.len(),
{
    if x.len() == 0 {
        assert(a + seq![sep] + x =~= a.push(sep));
        assert((a.push(sep)).drop_last() =~= a);
        assert(x =~= Seq::<char>::empty());
        assert(split_slash(a.push(sep)) == split_slash(a).push(x));
    } else {
        lemma_split_append_piece(a, x.drop_last(), sep);
        lemma_split_nonempty(a);
        let w = a + seq![sep] + x;
        assert(w.drop_last() =~= a + seq![sep] + x.drop_last());
        assert(w.last() == x.last());
        assert(!is_slash_char(x.last()));
        let r = split_slash(w.drop_last());
        assert(r == split_slash(a).push(x.drop_last()));
        assert(r.last() == x.drop_last());
        assert(x.drop_last().push(x.last()) =~= x);
        assert(split_slash(w) == r.update(r.len() - 1, r.last().push(x.last())));
        assert(split_slash(w) =~= split_slash(a).push(x));
    }
}

proof fn lemma_split_join(ss: Seq<Seq<char>>, sep: char)
    requires
        is_slash_char(sep),
        ss.len() >= 1,
        forall|i: int, j: int|
            0 <= i < ss.len() && 0 <= j < ss[i].len() ==> !is_slash_char(#[trigger] ss[i][j]),
    ensures
        split_slash(join_with(ss, sep)) == ss,
    decreases ss.len(),
{
    if ss.len() == 1 {
        lemma_split_noslash_single(ss[0]);
        assert(seq![ss[0]] =~= ss);
    } else {
        let butlast = ss.drop_last();
        assert(forall|i: int, j: int|
            0 <= i < butlast.len() && 0 <= j < butlast[i].len() ==> !is_slash_char(
                #[trigger] butlast[i][j],
            ));
        lemma_split_join(butlast, sep);
        lemma_join_push(butlast, ss.last(), sep);
        assert(butlast.push(ss.last()) =~= ss);
        assert(join_with(ss, sep) == join_with(butlast, sep) + seq![sep] + ss.last());
        lemma_split_append_piece(join_with(butlast, sep), ss.last(), sep);
        assert(split_slash(join_with(ss, sep)) =~= ss);
    }
}

proof fn lemma_drop_empty_id(ss: Seq<Seq<char>>)
    requires
        forall|i: int| 0 <= i < ss.len() ==> (#[trigger] ss[i]).len() > 0,
    ensures
        drop_empty_pieces(ss) == ss,
    decreases ss.len(),
{
    reveal(Seq::filter);
    if ss.len() > 0 {
        assert(forall|i: int|
            0 <= i < ss.drop_last().len() ==> (#[trigger] ss.drop_last()[i]).len() > 0);
        lemma_drop_empty_id(ss.drop_last());
        assert(ss.last().len() > 0);
        assert(drop_empty_pieces(ss) =~= ss.drop_last().push(ss.last()));
        assert(ss.drop_last().push(ss.last()) =~= ss);
    }
}

proof fn lemma_cancel_fixpoint(ss: Seq<Seq<char>>)
    requires
        forall|i: int|
            0 <= i < ss.len() - 1 && #[trigger] ss[i + 1] == parent_marker() ==> ss[i]
                == parent_marker(),
    ensures
        cancel_adjacent(ss) == Seq::new(ss.len(), |i: int| (ss[i], i < ss.len() - 1)),
    decreases ss.len(),
{
    let target = Seq::new(ss.len(), |i: int| (ss[i], i < ss.len() - 1));
    if ss.len() == 0 {
        assert(cancel_adjacent(ss) =~= target);
    } else {
        let rest = ss.drop_first();
        assert forall|i: int|
            0 <= i < rest.len() - 1 && #[trigger] rest[i + 1] == parent_marker() implies rest[i]
            == parent_marker() by {
            assert(rest[i + 1] == ss[i + 2]);
            assert(rest[i] == ss[i + 1]);
        }
        lemma_cancel_fixpoint(rest);
        if ss.len() >= 2 && ss[1] == parent_marker() {
            assert(ss[0] == parent_marker());
        }
        assert(cancel_adjacent(ss) == seq![(ss[0], ss.len() > 1)] + cancel_adjacent(rest));
        assert(cancel_adjacent(ss) =~= target);
    }
}

proof fn lemma_drop_dot_id(ss: Seq<Seq<char>>)
    requires
        forall|i: int| 0 <= i < ss.len() ==> #[trigger] ss[i] != seq!['.'],
    ensures
        drop_dot_segments(ss) == ss,
    decreases ss.len(),
{
    reveal(Seq::filter);
    if ss.len() > 0 {
        assert(forall|i: int|
            0 <= i < ss.drop_last().len() ==> #[trigger] ss.drop_last()[i] != seq!['.']);
        lemma_drop_dot_id(ss.drop_last());
        assert(ss.last() != seq!['.']);
        assert(drop_dot_segments(ss) =~= ss.drop_last().push(ss.last()));
        assert(ss.drop_last().push(ss.last()) =~= ss);
    }
}

proof fn lemma_join_chars(ss: Seq<Seq<char>>, sep: char, k: int)
    requires
        0 <= k < join_with(ss, sep).len(),
    ensures
        join_with(ss, sep)[k] == sep || exists|i: int, j: int|
            0 <= i < ss.len() && 0 <= j < ss[i].len() && #[trigger] ss[i][j] == join_with(
                ss,
                sep,
            )[k],
    decreases ss.len(),
{
    let w = join_with(ss, sep);
    if ss.len() == 0 {
    } else if ss.len() == 1 {
        assert(ss[0][k] == w[k]);
    } else {
        let wr = join_with(ss.drop_first(), sep);
        if k < ss[0].len() {
            assert(ss[0][k] == w[k]);
        } else if k == ss[0].len() {
            assert(w[k] == sep);
        } else {
            let k2 = k - ss[0].len() - 1;
            assert(w[k] == wr[k2]);
            lemma_join_chars(ss.drop_first(), sep, k2);
            if wr[k2] != sep {
                let (i, j): (int, int) = choose|i: int, j: int|
                    0 <= i < ss.drop_first().len() && 0 <= j < ss.drop_first()[i].len()
                        && ss.drop_first()[i][j] == wr[k2];
                assert(ss[i + 1][j] == w[k]);
            }
        }
    }
}

proof fn lemma_join_piece_prefix(ss: Seq<Seq<char>>, sep: char)
    requires
        ss.len() > 0,
    ensures
        join_with(ss, sep).len() >= ss[0].len(),
        forall|k: int| 0 <= k < ss[0].len() ==> join_with(ss, sep)[k] == ss[0][k],
        ss.len() > 1 ==> join_with(ss, sep).len() > ss[0].len() && join_with(ss, sep)[ss[0].len()
            as int] == sep,
{
}

proof fn lemma_join_after_sep(ss: Seq<Seq<char>>, sep: char, m: int)
    requires
        is_slash_char(sep),
        forall|i: int| 0 <= i < ss.len() ==> (#[trigger] ss[i]).len() > 0,
        forall|i: int, j: int|
            0 <= i < ss.len() && 0 <= j < ss[i].len() ==> !is_slash_char(#[trigger] ss[i][j]),
        0 <= m < join_with(ss, sep).len(),
        m == 0 || is_slash_char(join_with(ss, sep)[m - 1]),
    ensures
        exists|i: int|
            0 <= i < ss.len() && (#[trigger] ss[i]).len() > 0 && join_with(ss, sep)[m] == ss[i][0],
    decreases ss.len(),
{
    let w = join_with(ss, sep);
    if ss.len() == 1 {
        if m == 0 {
            assert(w[m] == ss[0][0]);
        } else {
            assert(w[m - 1] == ss[0][m - 1]);
        }
    } else if ss.len() > 1 {
        let wr = join_with(ss.drop_first(), sep);
        if m == 0 {
            assert(w[m] == ss[0][0]);
        } else if m < ss[0].len() {
            assert(w[m - 1] == ss[0][m - 1]);
        } else if m == ss[0].len() {
            assert(w[m - 1] == ss[0][m - 1]);
        } else {
            let m2 = m - ss[0].len() - 1;
            assert(w[m] == wr[m2]);
            if m2 == 0 {
                assert(ss.drop_first().len() > 0);
                assert(ss.drop_first()[0] == ss[1]);
                lemma_join_piece_prefix(ss.drop_first(), sep);
                assert(wr[0] == ss[1][0]);
                assert(ss[1].len() > 0);
            } else {
                assert(w[m - 1] == wr[m2 - 1]);
                assert(forall|i: int|
                    0 <= i < ss.drop_first().len() ==> (#[trigger] ss.drop_first()[i]).len() > 0);
                assert(forall|i: int, j: int|
                    0 <= i < ss.drop_first().len() && 0 <= j < ss.drop_first()[i].len()
                        ==> !is_slash_char(#[trigger] ss.drop_first()[i][j]));
                lemma_join_after_sep(ss.drop_first(), sep, m2);
                let i0 = choose|i: int|
                    0 <= i < ss.drop_first().len() && (#[trigger] ss.drop_first()[i]).len() > 0
                        && wr[m2] == ss.drop_first()[i][0];
                assert(ss[i0 + 1].len() > 0 && w[m] == ss[i0 + 1][0]);
            }
        }
    }
}

proof fn lemma_scan_no_refs(s: Seq<char>, i: int, prev: bool, ctx: ResolutionContext)
    requires
        0 <= i <= s.len(),
        prev && i < s.len() ==> s[i] != '%' && !(s[i] == '$' && i + 1 < s.len() && s[i + 1] == '{'),
        forall|m: int|
            i < m < s.len() && is_slash_char(#[trigger] s[m - 1]) ==> s[m] != '%' && !(s[m] == '$'
                && m + 1 < s.len() && s[m + 1] == '{'),
    ensures
        scan_vars(s, i, prev, ctx) == Ok::<Seq<char>, VarError>(s.skip(i)),
    decreases s.len() - i,
{
    if i >= s.len() {
        assert(s.skip(i) =~= Seq::<char>::empty());
    } else {
        let c = s[i];
        if is_slash_char(c) && i + 1 < s.len() {
            assert(i < i + 1 < s.len() && is_slash_char(s[(i + 1) - 1]));
        }
        lemma_scan_no_refs(s, i + 1, is_slash_char(c), ctx);
        assert(seq![c] + s.skip(i + 1) =~= s.skip(i));
    }
}

proof fn lemma_no_abs_prefix(r: Seq<char>, base: Seq<char>, os: Os)
    requires
        is_absolute_text(base),
        r.len() > 0 ==> !is_slash_char(r[0]),
        forall|k: int| 0 <= k < r.len() ==> #[trigger] r[k] != ':',
    ensures
        remove_abs_start_spec(r, base, os) is None,
{
    if r.len() >= base.len() && r.subrange(0, base.len() as int) == base {
        assert(r.subrange(0, base.len() as int)[0] == r[0]);
        assert(r[0] == base[0]);
        if !is_slash_char(base[0]) {
            assert(base.len() >= 2 && base[1] == ':');
            assert(r.subrange(0, base.len() as int)[1] == r[1]);
            assert(r[1] == ':');
        }
    }
}

/// Idempotence: normalizing an already-normalized path — its segments
/// rendered with any separator — reproduces the same segments. This needs
/// that no surviving parent marker directly follows a surviving ordinary
/// segment (such a pair, e.g. from `a/b/../..`, would cancel on a second
/// pass).
pub proof fn lemma_normalize_idempotent(s: Seq<char>, sep: char)
    requires
        is_slash_char(sep),
        forall|i: int|
            0 <= i < segments_of(s).len() - 1 && #[trigger] segments_of(s)[i + 1]
                == parent_marker() ==> segments_of(s)[i] == parent_marker(),
    ensures
        segments_of(join_with(segments_of(s), sep)) == segments_of(s),
{
    let t = segments_of(s);
    assert forall|i: int| 0 <= i < t.len() implies (#[trigger] t[i]).len() > 0 && forall|j: int|
        0 <= j < t[i].len() ==> !is_slash_char(#[trigger] t[i][j]) by {
        lemma_segments_structural(s, i);
    }
    if t.len() == 0 {
        assert(join_with(t, sep) =~= Seq::<char>::empty());
        assert(split_slash(Seq::<char>::empty()) == seq![Seq::<char>::empty()]);
        assert(seq![Seq::<char>::empty()] =~= Seq::<Seq<char>>::empty().push(
            Seq::<char>::empty(),
        ));
        lemma_drop_empty_push(Seq::<Seq<char>>::empty(), Seq::<char>::empty());
        lemma_drop_empty_none();
        assert(drop_empty_pieces(seq![Seq::<char>::empty()]) =~= Seq::<Seq<char>>::empty());
        assert(cancel_adjacent(Seq::<Seq<char>>::empty()) == Seq::<(Seq<char>, bool)>::empty());
        assert(normalize_pieces(seq![Seq::<char>::empty()]) =~= Seq::<(Seq<char>, bool)>::empty());
        assert(segments_of(join_with(t, sep)) =~= t);
    } else {
        assert(forall|i: int, j: int|
            0 <= i < t.len() && 0 <= j < t[i].len() ==> !is_slash_char(#[trigger] t[i][j]));
        lemma_split_join(t, sep);
        lemma_drop_empty_id(t);
        lemma_cancel_fixpoint(t);
        assert(segments_of(join_with(t, sep)) =~= t);
    }
}

/// Round trip: for a canonical path with no marker and no unmatched parent
/// marker, rendering it and re-running contraction, expansion and
/// normalization reproduces the same marker and segments. Segments that
/// would re-trigger shorthand or variable expansion (a lone `~`, or a
/// segment opening with `$` or `%`) are excluded, as is a context whose
/// home or cwd is not absolute.
pub proof fn lemma_round_trip(p: PathInner, ctx: ResolutionContext)
    requires
        p.wf(),
        ctx.wf(),
        p.spec_marker() is NoMarker,
        forall|i: int| 0 <= i < p.seg_views().len() ==> #[trigger] p.seg_views()[i]
            != parent_marker(),
        forall|i: int|
            0 <= i < p.seg_views().len() ==> ((#[trigger] p.seg_views()[i])[0] != '$'
                && p.seg_views()[i][0] != '%'),
        p.seg_views().len() > 0 ==> p.seg_views()[0] != seq!['~'],
    ensures
        ({
            let r = p.render_native_spec();
            let os = p.spec_profile().os;
            &&& contract_spec(r, ctx, os) == (None::<char>, r)
            &&& expand_spec(r, ctx, os) == Ok::<Seq<char>, VarError>(r)
            &&& drive_of(r) is None
            &&& kept_segments(r) == p.seg_views()
        }),
{
    let ss = p.seg_views();
    let os = p.spec_profile().os;
    let sep = os.spec_sep();
    let r = p.render_native_spec();
    assert(r == join_with(ss, sep));
    assert forall|i: int| 0 <= i < ss.len() implies (#[trigger] ss[i]).len() > 0 && ss[i]
        != seq!['.'] && (forall|j: int|
        0 <= j < ss[i].len() ==> !is_slash_char(#[trigger] ss[i][j]) && ss[i][j] != ':') by {
        assert(component_wf(ss[i], p.spec_profile()));
        assert forall|j: int| 0 <= j < ss[i].len() implies !is_slash_char(#[trigger] ss[i][j])
            && ss[i][j] != ':' by {
            assert(!crate::path_inner::forbidden_always(ss[i][j]));
        }
    }
    // every character of the render is the separator or a segment character
    assert forall|k: int| 0 <= k < r.len() implies #[trigger] r[k] != ':' && (is_slash_char(r[k])
        ==> r[k] == sep) by {
        lemma_join_chars(ss, sep, k);
        if r[k] != sep {
            let (i, j): (int, int) = choose|i: int, j: int|
                0 <= i < ss.len() && 0 <= j < ss[i].len() && ss[i][j] == r[k];
            assert(ss[i][j] != ':');
            assert(!is_slash_char(ss[i][j]));
        }
    }
    if ss.len() > 0 {
        lemma_join_piece_prefix(ss, sep);
        assert(ss[0].len() > 0);
        assert(r[0] == ss[0][0]);
        assert(!is_slash_char(r[0]));
    }
    // contraction: neither absolute prefix matches a relative render
    lemma_no_abs_prefix(r, ctx.home@, os);
    lemma_no_abs_prefix(r, ctx.cwd@, os);
    assert(contract_spec(r, ctx, os) == (None::<char>, r));
    // expansion: no shorthand start, no variable reference can open
    if r.len() > 0 {
        if r[0] == '~' {
            assert(ss.len() > 0);
            if ss[0].len() == 1 {
                assert(ss[0] =~= seq!['~']);
            } else {
                assert(r.len() >= ss[0].len());
                assert(r[1] == ss[0][1]);
                assert(!is_slash_char(r[1]));
            }
            assert(!starts_home(r));
        }
        if r[0] == '.' {
            assert(ss.len() > 0);
            if ss[0].len() == 1 {
                assert(ss[0] =~= seq!['.']);
            } else {
                assert(r[1] == ss[0][1]);
                assert(!is_slash_char(r[1]));
            }
            assert(!starts_current(r));
        }
    }
    assert(!starts_home(r));
    assert(!starts_current(r));
    assert(prefixed_spec(r, ctx, os) == r);
    assert forall|m: int|
        0 < m < r.len() && is_slash_char(#[trigger] r[m - 1]) implies r[m] != '%' && !(r[m] == '$'
        && m + 1 < r.len() && r[m + 1] == '{') by {
        lemma_join_after_sep(ss, sep, m);
        let i0 = choose|i: int|
            0 <= i < ss.len() && (#[trigger] ss[i]).len() > 0 && r[m] == ss[i][0];
        assert(ss[i0][0] != '$' && ss[i0][0] != '%');
    }
    if r.len() > 0 {
        assert(r[0] == ss[0][0]);
        assert(ss[0][0] != '$' && ss[0][0] != '%');
    }
    lemma_scan_no_refs(r, 0, true, ctx);
    assert(r.skip(0) =~= r);
    assert(expand_spec(r, ctx, os) == Ok::<Seq<char>, VarError>(r));
    // no drive letter can appear: `:` never occurs in the render
    if r.len() >= 2 {
        assert(r[1] != ':');
    }
    assert(drive_of(r) is None);
    // normalization of the render reproduces the segments exactly
    assert(after_drive(r) == r);
    if ss.len() == 0 {
        assert(r =~= Seq::<char>::empty());
        assert(split_slash(Seq::<char>::empty()) == seq![Seq::<char>::empty()]);
        assert(seq![Seq::<char>::empty()] =~= Seq::<Seq<char>>::empty().push(
            Seq::<char>::empty(),
        ));
        lemma_drop_empty_push(Seq::<Seq<char>>::empty(), Seq::<char>::empty());
        lemma_drop_empty_none();
        assert(drop_empty_pieces(seq![Seq::<char>::empty()]) =~= Seq::<Seq<char>>::empty());
        assert(cancel_adjacent(Seq::<Seq<char>>::empty()) == Seq::<(Seq<char>, bool)>::empty());
        assert(normalize_pieces(seq![Seq::<char>::empty()]) =~= Seq::<(Seq<char>, bool)>::empty());
        assert(segments_of(r) =~= ss);
        lemma_drop_dot_id(ss);
    } else {
        assert(forall|i: int, j: int|
            0 <= i < ss.len() && 0 <= j < ss[i].len() ==> !is_slash_char(#[trigger] ss[i][j]));
        lemma_split_join(ss, sep);
        lemma_drop_empty_id(ss);
        lemma_cancel_fixpoint(ss);
        assert(segments_of(r) =~= ss);
        lemma_drop_dot_id(ss);
    }
    assert(kept_segments(r) == ss);
}

proof fn lemma_ci_concat(a1: Seq<char>, a2: Seq<char>, b1: Seq<char>, b2: Seq<char>)
    requires
        ci_eq(a1, b1),
        ci_eq(a2, b2),
    ensures
        ci_eq(a1 + a2, b1 + b2),
{
    assert forall|k: int| 0 <= k < (a1 + a2).len() implies ci_eq_char(
        #[trigger] (a1 + a2)[k],
        (b1 + b2)[k],
    ) by {
        if k < a1.len() {
            assert((a1 + a2)[k] == a1[k] && (b1 + b2)[k] == b1[k]);
        } else {
            assert((a1 + a2)[k] == a2[k - a1.len()] && (b1 + b2)[k] == b2[k - a1.len()]);
        }
    }
}

proof fn lemma_ci_refl(a: Seq<char>)
    ensures
        ci_eq(a, a),
{
}

proof fn lemma_join_ci(ss1: Seq<Seq<char>>, ss2: Seq<Seq<char>>, sep: char)
    requires
        ss1.len() == ss2.len(),
        forall|i: int| 0 <= i < ss1.len() ==> ci_eq(#[trigger] ss1[i], ss2[i]),
    ensures
        ci_eq(join_with(ss1, sep), join_with(ss2, sep)),
    decreases ss1.len(),
{
    if ss1.len() == 0 {
    } else if ss1.len() == 1 {
        assert(ci_eq(ss1[0], ss2[0]));
    } else {
        assert(forall|i: int|
            0 <= i < ss1.drop_first().len() ==> ci_eq(
                #[trigger] ss1.drop_first()[i],
                ss2.drop_first()[i],
            ));
        lemma_join_ci(ss1.drop_first(), ss2.drop_first(), sep);
        lemma_ci_refl(seq![sep]);
        lemma_ci_concat(ss1[0], seq![sep], ss2[0], seq![sep]);
        lemma_ci_concat(
            ss1[0] + seq![sep],
            join_with(ss1.drop_first(), sep),
            ss2[0] + seq![sep],
            join_with(ss2.drop_first(), sep),
        );
    }
}

/// Case-insensitivity: two canonical paths under the same profile whose
/// markers agree and whose segments differ only by case compare equal, and
/// their rendered texts differ only by case.
pub proof fn lemma_case_insensitive_equal(p1: PathInner, p2: PathInner)
    requires
        p1.wf(),
        p2.wf(),
        p1.spec_profile().os == p2.spec_profile().os,
        p1.spec_marker() == p2.spec_marker(),
        p1.seg_views().len() == p2.seg_views().len(),
        forall|i: int| 0 <= i < p1.seg_views().len() ==> ci_eq(
            #[trigger] p1.seg_views()[i],
            p2.seg_views()[i],
        ),
    ensures
        ci_eq(p1.render_native_spec(), p2.render_native_spec()),
        p1.eq_spec(&p2),
{
    let sep = p1.spec_profile().os.spec_sep();
    lemma_join_ci(p1.seg_views(), p2.seg_views(), sep);
    let b1 = join_with(p1.seg_views(), sep);
    let b2 = join_with(p2.seg_views(), sep);
    match p1.spec_marker() {
        Marker::NoMarker => {},
        Marker::Rooted => {
            lemma_ci_refl(seq![sep]);
            lemma_ci_concat(seq![sep], b1, seq![sep], b2);
        },
        Marker::CurrentDir => {},
        Marker::HomeDir => {},
        Marker::Drive(d) => {
            if p1.spec_profile().os is Windows {
                lemma_ci_refl(seq![d, ':', sep]);
                lemma_ci_concat(seq![d, ':', sep], b1, seq![d, ':', sep], b2);
            } else {
                lemma_ci_refl(seq![sep]);
                lemma_ci_concat(seq![sep], b1, seq![sep], b2);
            }
        },
    }
}

/// The comparison key decides equality: two canonical paths compare equal
/// exactly when their case-folded keys are equal texts. The key arguments
/// are pinned the way [`PathInner::comparison_key`] pins its result.
pub proof fn lemma_key_decides_equality(
    p1: PathInner,
    p2: PathInner,
    k1: Seq<char>,
    k2: Seq<char>,
)
    requires
        k1.len() == p1.render_native_spec().len(),
        forall|i: int|
            0 <= i < k1.len() ==> (#[trigger] k1[i]) as u32 == lower_u32(
                p1.render_native_spec()[i],
            ),
        k2.len() == p2.render_native_spec().len(),
        forall|i: int|
            0 <= i < k2.len() ==> (#[trigger] k2[i]) as u32 == lower_u32(
                p2.render_native_spec()[i],
            ),
    ensures
        (k1 == k2) <==> p1.eq_spec(&p2),
{
    let r1 = p1.render_native_spec();
    let r2 = p2.render_native_spec();
    if k1 == k2 {
        assert forall|i: int| 0 <= i < r1.len() implies ci_eq_char(r1[i], r2[i]) by {
            assert(k1[i] as u32 == k2[i] as u32);
        }
        assert(ci_eq(r1, r2));
    }
    if ci_eq(r1, r2) {
        assert forall|i: int| 0 <= i < k1.len() implies k1[i] == k2[i] by {
            assert(k1[i] as u32 == k2[i] as u32);
            char_u32_cast(k1[i], k1[i] as u32);
            char_u32_cast(k2[i], k2[i] as u32);
        }
        assert(k1 =~= k2);
    }
}

} // verus!
