//! The injected resolution context: home directory, current working
//! directory, and the environment-variable bindings a resolution may consult.
//! It is a pure value — the engine never touches the host environment.

use vstd::prelude::*;

use crate::chars::is_slash_char;
use crate::chars::str_eq;

verus! {

/// Read-only source of home, cwd and environment variables, supplied per
/// call and immutable during a resolution. The first binding for a name wins.
pub struct ResolutionContext {
    pub home: String,
    pub cwd: String,
    pub vars: Vec<(String, String)>,
}

/// First-match lookup over a binding list.
pub open spec fn lookup_in(vars: Seq<(String, String)>, name: Seq<char>) -> Option<Seq<char>>
    decreases vars.len(),
{
    if vars.len() == 0 {
        None
    } else if vars[0].0@ == name {
        Some(vars[0].1@)
    } else {
        lookup_in(vars.drop_first(), name)
    }
}

/// A context text is absolute when it is rooted or drive-lettered; home and
/// cwd are expected to be absolute.
pub open spec fn is_absolute_text(s: Seq<char>) -> bool {
    s.len() > 0 && (is_slash_char(s[0]) || (s.len() >= 2 && s[1] == ':'))
}

impl ResolutionContext {
    /// The value bound to `name`, if any.
    pub open spec fn lookup_spec(self, name: Seq<char>) -> Option<Seq<char>> {
        lookup_in(self.vars@, name)
    }

    /// Home and cwd are absolute texts.
    pub open spec fn wf(self) -> bool {
        is_absolute_text(self.home@) && is_absolute_text(self.cwd@)
    }

    /// A context with no variable bindings.
    pub fn new(home: String, cwd: String) -> (r: ResolutionContext)
        ensures
            r.home == home,
            r.cwd == cwd,
            r.vars@ == Seq::<(String, String)>::empty(),
    {
        ResolutionContext { home, cwd, vars: Vec::new() }
    }

    /// Adds a binding; an earlier binding for the same name keeps priority.
    pub fn set_var(&mut self, name: String, value: String)
        ensures
            final(self).home == old(self).home,
            final(self).cwd == old(self).cwd,
            final(self).vars@ == old(self).vars@.push((name, value)),
    {
        self.vars.push((name, value));
    }

    /// Looks `name` up among the bindings.
    pub fn lookup(&self, name: &str) -> (r: Option<String>)
        ensures
            match r {
                Some(v) => self.lookup_spec(name@) == Some(v@),
                None => self.lookup_spec(name@) is None,
            },
    {
        let mut i: usize = 0;
        proof {
            assert(self.vars@.skip(0) =~= self.vars@);
        }
        while i < self.vars.len()
            invariant
                i <= self.vars@.len(),
                lookup_in(self.vars@, name@) == lookup_in(self.vars@.skip(i as int), name@),
            decreases self.vars@.len() - i,
        {
            proof {
                assert(self.vars@.skip(i as int)[0] == self.vars@[i as int]);
                assert(self.vars@.skip(i as int).drop_first() =~= self.vars@.skip(i as int + 1));
            }
            if str_eq(self.vars[i].0.as_str(), name) {
                return Some(self.vars[i].1.clone());
            }
            i = i + 1;
        }
        proof {
            assert(self.vars@.skip(i as int) =~= Seq::<(String, String)>::empty());
        }
        None
    }
}

} // verus!
