//! One parameter type for call sites that accept either a single text or an
//! ordered list of texts, together with a join rule.

use vstd::prelude::*;

use crate::chars::push_char;

verus! {

/// Joins texts with the separator between each adjacent pair.
pub open spec fn join_texts(ss: Seq<Seq<char>>, sep: Seq<char>) -> Seq<char>
    decreases ss.len(),
{
    if ss.len() == 0 {
        Seq::empty()
    } else if ss.len() == 1 {
        ss[0]
    } else {
        ss[0] + sep + join_texts(ss.drop_first(), sep)
    }
}

pub broadcast proof fn lemma_join_texts_push(ss: Seq<Seq<char>>, x: Seq<char>, sep: Seq<char>)
    ensures
        #[trigger] join_texts(ss.push(x), sep) == if ss.len() == 0 {
            x
        } else {
            join_texts(ss, sep) + sep + x
        },
    decreases ss.len(),
{
    if ss.len() == 0 {
        assert(ss.push(x)[0] == x);
    } else if ss.len() == 1 {
        assert(ss.push(x).drop_first() =~= seq![x]);
        assert(ss.push(x)[0] == ss[0]);
        assert(join_texts(seq![x], sep) == x);
    } else {
        assert(ss.push(x).drop_first() =~= ss.drop_first().push(x));
        lemma_join_texts_push(ss.drop_first(), x, sep);
        assert((ss[0] + sep + (join_texts(ss.drop_first(), sep) + sep + x)) =~= (ss[0] + sep
            + join_texts(ss.drop_first(), sep)) + sep + x);
    }
}

/// An ordered sequence of texts with a join rule: lets one signature accept
/// a single string or a list of strings alike.
pub trait StrValues {
    /// The texts this value stands for.
    spec fn spec_strings(&self) -> Seq<Seq<char>>;

    /// How many texts there are.
    fn string_count(&self) -> (r: usize)
        ensures
            r == self.spec_strings().len(),
    ;

    /// The text at `index`.
    fn string_at(&self, index: usize) -> (r: &str)
        requires
            index < self.spec_strings().len(),
        ensures
            r@ == self.spec_strings()[index as int],
    ;

    /// All texts joined with `separator`.
    fn join_strings(&self, separator: &str) -> (r: String)
        ensures
            r@ == join_texts(self.spec_strings(), separator@),
    ;
}

impl StrValues for Vec<String> {
    open spec fn spec_strings(&self) -> Seq<Seq<char>> {
        self@.map_values(|s: String| s@)
    }

    fn string_count(&self) -> (r: usize) {
        self.len()
    }

    fn string_at(&self, index: usize) -> (r: &str) {
        self[index].as_str()
    }

    fn join_strings(&self, separator: &str) -> (r: String) {
        let ghost views = self.spec_strings();
        let mut out = String::new();
        let mut i: usize = 0;
        while i < self.len()
            invariant
                i <= self@.len(),
                views == self@.map_values(|s: String| s@),
                out@ == join_texts(views.take(i as int), separator@),
            decreases self@.len() - i,
        {
            let ghost pre = views.take(i as int);
            if i > 0 {
                out.append(separator);
            }
            out.append(self[i].as_str());
            i = i + 1;
            proof {
                assert(views.take(i as int) =~= pre.push(views[i - 1]));
                lemma_join_texts_push(pre, views[i - 1], separator@);
                if pre.len() == 0 {
                    assert(out@ =~= views[i - 1]);
                } else {
                    assert(out@ =~= join_texts(pre, separator@) + separator@ + views[i - 1]);
                }
            }
        }
        proof {
            assert(views.take(views.len() as int) =~= views);
        }
        out
    }
}

impl StrValues for &str {
    /// A single string stands for one text, or none when it is empty.
    open spec fn spec_strings(&self) -> Seq<Seq<char>> {
        if self@.len() == 0 {
            Seq::empty()
        } else {
            seq![self@]
        }
    }

    fn string_count(&self) -> (r: usize) {
        if self.unicode_len() == 0 {
            0
        } else {
            1
        }
    }

    fn string_at(&self, _index: usize) -> (r: &str) {
        self
    }

    fn join_strings(&self, _separator: &str) -> (r: String) {
        let r = String::from_str(self);
        proof {
            if self@.len() == 0 {
                assert(r@ =~= join_texts(self.spec_strings(), _separator@));
            }
        }
        r
    }
}

impl StrValues for String {
    /// A single string stands for one text, or none when it is empty.
    open spec fn spec_strings(&self) -> Seq<Seq<char>> {
        if self@.len() == 0 {
            Seq::empty()
        } else {
            seq![self@]
        }
    }

    fn string_count(&self) -> (r: usize) {
        if self.as_str().unicode_len() == 0 {
            0
        } else {
            1
        }
    }

    fn string_at(&self, _index: usize) -> (r: &str) {
        self.as_str()
    }

    fn join_strings(&self, _separator: &str) -> (r: String) {
        let r = self.clone();
        proof {
            if self@.len() == 0 {
                assert(r@ =~= join_texts(self.spec_strings(), _separator@));
            }
        }
        r
    }
}

} // verus!
