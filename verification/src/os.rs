//! The OS profile: a small closed set of capabilities — native separator and
//! validation strictness — selected at construction instead of runtime host
//! checks scattered through the engine.

use vstd::prelude::*;

verus! {

/// The host family a path is rendered and validated for.
#[derive(Clone, Copy, Debug)]
pub enum Os {
    Unix,
    Windows,
}

impl Os {
    /// The native separator rendered for this family.
    pub open spec fn spec_sep(self) -> char {
        match self {
            Os::Windows => '\\',
            Os::Unix => '/',
        }
    }

    /// Executable native separator.
    pub fn sep(self) -> (c: char)
        ensures
            c == self.spec_sep(),
    {
        match self {
            Os::Windows => '\\',
            Os::Unix => '/',
        }
    }
}

/// Validation profile: the host family plus the strict switch that applies
/// Windows-equivalent restrictions on any host.
#[derive(Clone, Copy, Debug)]
pub struct OsProfile {
    pub os: Os,
    pub strict: bool,
}

impl OsProfile {
    /// Whether the Windows-equivalent component restrictions apply.
    pub open spec fn spec_restrictive(self) -> bool {
        self.os is Windows || self.strict
    }

    /// Executable test for [`OsProfile::spec_restrictive`].
    pub fn restrictive(self) -> (r: bool)
        ensures
            r == self.spec_restrictive(),
    {
        matches!(self.os, Os::Windows) || self.strict
    }

    pub fn unix() -> (r: OsProfile)
        ensures
            r.os is Unix,
            !r.strict,
    {
        OsProfile { os: Os::Unix, strict: false }
    }

    pub fn windows() -> (r: OsProfile)
        ensures
            r.os is Windows,
            !r.strict,
    {
        OsProfile { os: Os::Windows, strict: false }
    }
}

} // verus!
