//! The segment normalizer: splits a path on separators, drops empty pieces
//! (doubled or trailing separators) before anything else, then cancels
//! directly adjacent `component/..` pairs over the remaining pieces, so an
//! empty piece never affects the cancellation lookahead. Each yielded
//! segment reports whether further non-empty pieces follow.
//!
//! Deliberately not a full directory-stack resolver: only directly adjacent
//! pairs cancel, `..` never cancels a preceding `..`, and an unmatched `..`
//! (no concrete predecessor, e.g. two in a row) survives as a literal
//! segment.

use vstd::prelude::*;

use crate::chars::is_slash;
use crate::chars::is_slash_char;
use crate::chars::push_char;

verus! {

/// The literal parent marker `..`.
pub open spec fn parent_marker() -> Seq<char> {
    seq!['.', '.']
}

/// Splits on both separators, keeping empty pieces; the result always holds
/// at least one piece, as `str::split` does.
pub open spec fn split_slash(s: Seq<char>) -> Seq<Seq<char>>
    decreases s.len(),
{
    if s.len() == 0 {
        seq![Seq::<char>::empty()]
    } else if is_slash_char(s.last()) {
        split_slash(s.drop_last()).push(Seq::<char>::empty())
    } else {
        let r = split_slash(s.drop_last());
        r.update(r.len() - 1, r.last().push(s.last()))
    }
}

/// The split always yields at least one piece.
pub proof fn lemma_split_nonempty(s: Seq<char>)
    ensures
        split_slash(s).len() >= 1,
    decreases s.len(),
{
    if s.len() > 0 {
        lemma_split_nonempty(s.drop_last());
    }
}

/// No piece of the split contains a separator character.
pub proof fn lemma_split_pieces_no_slash(s: Seq<char>)
    ensures
        forall|i: int, j: int|
            0 <= i < split_slash(s).len() && 0 <= j < split_slash(s)[i].len() ==> !is_slash_char(
                #[trigger] split_slash(s)[i][j],
            ),
    decreases s.len(),
{
    if s.len() == 0 {
    } else {
        lemma_split_pieces_no_slash(s.drop_last());
        lemma_split_nonempty(s.drop_last());
        let r = split_slash(s.drop_last());
        let w = split_slash(s);
        if is_slash_char(s.last()) {
            assert forall|i: int, j: int| 0 <= i < w.len() && 0 <= j < w[i].len() implies
            !is_slash_char(w[i][j]) by {
                if i < r.len() {
                    assert(w[i] == r[i]);
                } else {
                    assert(w[i].len() == 0);
                }
            }
        } else {
            assert forall|i: int, j: int| 0 <= i < w.len() && 0 <= j < w[i].len() implies
            !is_slash_char(w[i][j]) by {
                if i < r.len() - 1 {
                    assert(w[i] == r[i]);
                } else {
                    assert(w[i] == r.last().push(s.last()));
                    if j < r.last().len() {
                        assert(w[i][j] == r[r.len() - 1][j]);
                    } else {
                        assert(w[i][j] == s.last());
                    }
                }
            }
        }
    }
}

/// Discards the empty pieces; this happens before the cancellation walk, so
/// an empty piece never affects its lookahead.
pub open spec fn drop_empty_pieces(ps: Seq<Seq<char>>) -> Seq<Seq<char>> {
    ps.filter(|p: Seq<char>| p.len() > 0)
}

/// The cancellation walk: a piece other than `..` directly followed by `..`
/// cancels with it; `..` never cancels a preceding `..`; a yielded piece
/// carries whether any further piece follows.
pub open spec fn cancel_adjacent(ps: Seq<Seq<char>>) -> Seq<(Seq<char>, bool)>
    decreases ps.len(),
{
    if ps.len() == 0 {
        Seq::empty()
    } else if ps[0] != parent_marker() && ps.len() >= 2 && ps[1] == parent_marker() {
        cancel_adjacent(ps.skip(2))
    } else {
        seq![(ps[0], ps.len() > 1)] + cancel_adjacent(ps.drop_first())
    }
}

/// The whole normalization walk: empty pieces dropped, then adjacent
/// cancellation.
pub open spec fn normalize_pieces(ps: Seq<Seq<char>>) -> Seq<(Seq<char>, bool)> {
    cancel_adjacent(drop_empty_pieces(ps))
}

/// The texts of the normalized segments of a path.
pub open spec fn segments_of(s: Seq<char>) -> Seq<Seq<char>> {
    normalize_pieces(split_slash(s)).map_values(|sb: (Seq<char>, bool)| sb.0)
}

pub proof fn lemma_drop_empty_none()
    ensures
        drop_empty_pieces(Seq::<Seq<char>>::empty()) == Seq::<Seq<char>>::empty(),
{
    reveal(Seq::filter);
}

pub proof fn lemma_drop_empty_push(ps: Seq<Seq<char>>, x: Seq<char>)
    ensures
        drop_empty_pieces(ps.push(x)) == if x.len() > 0 {
            drop_empty_pieces(ps).push(x)
        } else {
            drop_empty_pieces(ps)
        },
{
    reveal(Seq::filter);
    assert(ps.push(x).drop_last() =~= ps);
    assert(ps.push(x).last() == x);
}

/// Every piece kept by the empty-piece filter is a non-empty piece of the
/// input list.
pub proof fn lemma_drop_empty_elem(ps: Seq<Seq<char>>, k: int)
    requires
        0 <= k < drop_empty_pieces(ps).len(),
    ensures
        drop_empty_pieces(ps)[k].len() > 0,
        exists|m: int| 0 <= m < ps.len() && ps[m] == drop_empty_pieces(ps)[k],
    decreases ps.len(),
{
    reveal(Seq::filter);
    if ps.len() > 0 {
        let sub = drop_empty_pieces(ps.drop_last());
        if ps.last().len() > 0 {
            assert(drop_empty_pieces(ps) == sub.push(ps.last()));
            if k < sub.len() {
                lemma_drop_empty_elem(ps.drop_last(), k);
                let m = choose|m: int|
                    0 <= m < ps.drop_last().len() && ps.drop_last()[m] == sub[k];
                assert(ps[m] == drop_empty_pieces(ps)[k]);
            } else {
                assert(drop_empty_pieces(ps)[k] == ps.last());
                assert(ps[ps.len() - 1] == drop_empty_pieces(ps)[k]);
            }
        } else {
            assert(drop_empty_pieces(ps) == sub);
            lemma_drop_empty_elem(ps.drop_last(), k);
            let m = choose|m: int| 0 <= m < ps.drop_last().len() && ps.drop_last()[m] == sub[k];
            assert(ps[m] == drop_empty_pieces(ps)[k]);
        }
    }
}

/// Every segment the cancellation walk yields is one of its input pieces.
pub proof fn lemma_cancel_from_pieces(qs: Seq<Seq<char>>, i: int)
    requires
        0 <= i < cancel_adjacent(qs).len(),
    ensures
        exists|k: int| 0 <= k < qs.len() && qs[k] == cancel_adjacent(qs)[i].0,
    decreases qs.len(),
{
    if qs.len() == 0 {
    } else if qs[0] != parent_marker() && qs.len() >= 2 && qs[1] == parent_marker() {
        lemma_cancel_from_pieces(qs.skip(2), i);
        let t = cancel_adjacent(qs)[i].0;
        let k = choose|k: int| 0 <= k < qs.skip(2).len() && qs.skip(2)[k] == t;
        assert(qs[k + 2] == t);
    } else {
        if i == 0 {
            assert(cancel_adjacent(qs)[0].0 == qs[0]);
        } else {
            lemma_cancel_from_pieces(qs.drop_first(), i - 1);
            let t = cancel_adjacent(qs)[i].0;
            assert(t == cancel_adjacent(qs.drop_first())[i - 1].0);
            let k = choose|k: int|
                0 <= k < qs.drop_first().len() && qs.drop_first()[k] == cancel_adjacent(
                    qs.drop_first(),
                )[i - 1].0;
            assert(qs[k + 1] == t);
        }
    }
}

/// Normalized segments are non-empty and free of separators.
pub proof fn lemma_segments_structural(s: Seq<char>, i: int)
    requires
        0 <= i < segments_of(s).len(),
    ensures
        segments_of(s)[i].len() > 0,
        forall|j: int| 0 <= j < segments_of(s)[i].len() ==> !is_slash_char(segments_of(s)[i][j]),
{
    let qs = drop_empty_pieces(split_slash(s));
    let norm = cancel_adjacent(qs);
    assert(segments_of(s)[i] == norm[i].0);
    lemma_cancel_from_pieces(qs, i);
    let k = choose|k: int| 0 <= k < qs.len() && qs[k] == norm[i].0;
    lemma_drop_empty_elem(split_slash(s), k);
    let m = choose|m: int| 0 <= m < split_slash(s).len() && split_slash(s)[m] == qs[k];
    lemma_split_pieces_no_slash(s);
    assert forall|j: int| 0 <= j < segments_of(s)[i].len() implies !is_slash_char(
        segments_of(s)[i][j],
    ) by {
        assert(split_slash(s)[m][j] == segments_of(s)[i][j]);
        assert(!is_slash_char(split_slash(s)[m][j]));
    }
}

/// Splits a path into its raw pieces, keeping empty ones.
fn split_pieces(path: &str) -> (r: Vec<String>)
    ensures
        r@.map_values(|p: String| p@) == split_slash(path@),
{
    let len = path.unicode_len();
    let mut pieces: Vec<String> = Vec::new();
    let mut cur = String::new();
    let mut i: usize = 0;
    while i < len
        invariant
            i <= len,
            len == path@.len(),
            pieces@.map_values(|p: String| p@).push(cur@) == split_slash(path@.subrange(0, i as int)),
        decreases len - i,
    {
        let ghost pre = path@.subrange(0, i as int);
        let ghost old_cur = cur@;
        let c = path.get_char(i);
        if is_slash(c) {
            pieces.push(cur);
            cur = String::new();
        } else {
            push_char(&mut cur, c);
        }
        i = i + 1;
        proof {
            let post = path@.subrange(0, i as int);
            assert(post.drop_last() =~= pre);
            assert(post.last() == c);
            if is_slash_char(c) {
                assert(pieces@.map_values(|p: String| p@).push(cur@) =~= split_slash(pre).push(
                    Seq::<char>::empty(),
                ));
            } else {
                let old_m = pieces@.map_values(|p: String| p@);
                assert(old_m.push(old_cur) == split_slash(pre));
                assert(cur@ == old_cur.push(c));
                assert(split_slash(pre).last() == old_cur);
                assert(pieces@.map_values(|p: String| p@).push(cur@) =~= split_slash(pre).update(
                    split_slash(pre).len() - 1,
                    split_slash(pre).last().push(c),
                ));
            }
        }
    }
    proof {
        assert(path@.subrange(0, len as int) =~= path@);
    }
    pieces.push(cur);
    pieces
}

/// Splits a path and discards the empty pieces.
fn nonempty_pieces(path: &str) -> (r: Vec<String>)
    ensures
        r@.map_values(|p: String| p@) == drop_empty_pieces(split_slash(path@)),
{
    let all = split_pieces(path);
    let ghost am = all@.map_values(|p: String| p@);
    let mut out: Vec<String> = Vec::new();
    let mut i: usize = 0;
    proof {
        assert(am.take(0) =~= Seq::<Seq<char>>::empty());
        lemma_drop_empty_none();
    }
    while i < all.len()
        invariant
            i <= all@.len(),
            am == all@.map_values(|p: String| p@),
            am == split_slash(path@),
            out@.map_values(|p: String| p@) == drop_empty_pieces(am.take(i as int)),
        decreases all@.len() - i,
    {
        let ghost pre = am.take(i as int);
        proof {
            assert(am.take(i + 1) =~= pre.push(am[i as int]));
            assert(am[i as int] == all@[i as int]@);
            lemma_drop_empty_push(pre, am[i as int]);
        }
        if all[i].as_str().unicode_len() > 0 {
            out.push(all[i].clone());
            proof {
                assert(out@.map_values(|p: String| p@) =~= drop_empty_pieces(pre).push(
                    am[i as int],
                ));
            }
        }
        i = i + 1;
    }
    proof {
        assert(am.take(am.len() as int) =~= am);
    }
    out
}

/// Walks the non-empty pieces of one path, yielding normalized segments in
/// order.
pub struct InnerSegmentIter {
    pieces: Vec<String>,
    pos: usize,
}

impl InnerSegmentIter {
    /// The pieces not yet consumed.
    pub closed spec fn remaining(self) -> Seq<Seq<char>> {
        self.pieces@.map_values(|p: String| p@).skip(self.pos as int)
    }

    pub closed spec fn wf(self) -> bool {
        self.pos <= self.pieces@.len()
    }

    /// Starts a walk over the non-empty pieces of `path`.
    pub fn new(path: &str) -> (r: InnerSegmentIter)
        ensures
            r.wf(),
            r.remaining() == drop_empty_pieces(split_slash(path@)),
    {
        let pieces = nonempty_pieces(path);
        let r = InnerSegmentIter { pieces, pos: 0 };
        proof {
            assert(r.remaining() =~= drop_empty_pieces(split_slash(path@)));
        }
        r
    }

    /// Is the piece at `idx` exactly the parent marker `..`?
    fn piece_is_parent(&self, idx: usize) -> (r: bool)
        requires
            idx < self.pieces@.len(),
        ensures
            r == (self.pieces@[idx as int]@ == parent_marker()),
    {
        let p: &String = &self.pieces[idx];
        let plen = p.as_str().unicode_len();
        if plen != 2 {
            proof {
                assert(parent_marker().len() == 2);
            }
            return false;
        }
        let r = p.as_str().get_char(0) == '.' && p.as_str().get_char(1) == '.';
        proof {
            if r {
                assert(p@ =~= parent_marker());
            } else {
                assert(p@ != parent_marker());
            }
        }
        r
    }

    /// Yields the next normalized segment together with its `has_more` flag,
    /// or nothing once the normalized walk is exhausted — and an exhausted
    /// iterator stays exhausted.
    pub fn next(&mut self) -> (r: Option<(String, bool)>)
        requires
            old(self).wf(),
        ensures
            final(self).wf(),
            match r {
                Some(seg) => {
                    &&& cancel_adjacent(old(self).remaining()).len() > 0
                    &&& (seg.0@, seg.1) == cancel_adjacent(old(self).remaining())[0]
                    &&& cancel_adjacent(final(self).remaining()) == cancel_adjacent(
                        old(self).remaining(),
                    ).drop_first()
                },
                None => {
                    &&& cancel_adjacent(old(self).remaining()) == Seq::<(Seq<char>, bool)>::empty()
                    &&& cancel_adjacent(final(self).remaining()) == Seq::<(
                        Seq<char>,
                        bool,
                    )>::empty()
                },
            },
    {
        loop
            invariant
                self.wf(),
                cancel_adjacent(old(self).remaining()) == cancel_adjacent(self.remaining()),
            decreases self.pieces@.len() - self.pos,
        {
            let ghost rem = self.remaining();
            if self.pos >= self.pieces.len() {
                proof {
                    assert(rem =~= Seq::<Seq<char>>::empty());
                }
                return None;
            }
            proof {
                assert(rem[0] == self.pieces@[self.pos as int]@);
                assert(rem.drop_first() =~= self.pieces@.map_values(|p: String| p@).skip(
                    self.pos + 1,
                ));
            }
            let head_is_parent = self.piece_is_parent(self.pos);
            if !head_is_parent && self.pos + 1 < self.pieces.len() && self.piece_is_parent(
                self.pos + 1,
            ) {
                proof {
                    assert(rem[1] == self.pieces@[self.pos + 1]@);
                    assert(rem.skip(2) =~= self.pieces@.map_values(|p: String| p@).skip(
                        self.pos + 2,
                    ));
                }
                self.pos = self.pos + 2;
                continue;
            }
            proof {
                if !head_is_parent && self.pos + 1 >= self.pieces@.len() {
                    assert(rem.len() < 2);
                }
            }
            let text = self.pieces[self.pos].clone();
            let has_more = self.pos + 1 < self.pieces.len();
            self.pos = self.pos + 1;
            proof {
                assert(has_more == (rem.len() > 1));
                assert(cancel_adjacent(rem)[0] == (text@, has_more));
                assert(cancel_adjacent(self.remaining()) =~= cancel_adjacent(rem).drop_first());
            }
            return Some((text, has_more));
        }
    }
}

/// The normalized segment texts of `path`, in order.
pub fn segs(path: &str) -> (r: Vec<String>)
    ensures
        r@.map_values(|p: String| p@) == segments_of(path@),
{
    let mut it = InnerSegmentIter::new(path);
    let ghost init = it.remaining();
    let mut out: Vec<String> = Vec::new();
    loop
        invariant
            it.wf(),
            init == drop_empty_pieces(split_slash(path@)),
            normalize_pieces(split_slash(path@)).map_values(|sb: (Seq<char>, bool)| sb.0)
                == out@.map_values(|p: String| p@) + cancel_adjacent(it.remaining()).map_values(
                |sb: (Seq<char>, bool)| sb.0,
            ),
        decreases cancel_adjacent(it.remaining()).len(),
    {
        let ghost rem_norm = cancel_adjacent(it.remaining());
        match it.next() {
            Some(seg) => {
                proof {
                    assert(rem_norm.map_values(|sb: (Seq<char>, bool)| sb.0)[0] == seg.0@);
                    assert(rem_norm.drop_first().map_values(|sb: (Seq<char>, bool)| sb.0)
                        =~= rem_norm.map_values(|sb: (Seq<char>, bool)| sb.0).drop_first());
                }
                out.push(seg.0);
                proof {
                    assert(out@.map_values(|p: String| p@) + cancel_adjacent(it.remaining())
                        .map_values(|sb: (Seq<char>, bool)| sb.0) =~= out@.map_values(
                        |p: String| p@,
                    ).drop_last() + rem_norm.map_values(|sb: (Seq<char>, bool)| sb.0));
                }
            },
            None => {
                proof {
                    assert(out@.map_values(|p: String| p@) =~= segments_of(path@));
                }
                return out;
            },
        }
    }
}

} // verus!
