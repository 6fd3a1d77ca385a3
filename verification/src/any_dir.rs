//! The directory-path wrapper around the canonical form, and the conversion
//! trait whose impls may add host-side existence checks.

use vstd::prelude::*;

use crate::context::ResolutionContext;
use crate::errors::PathError;
use crate::os::OsProfile;
use crate::path_inner::build_err;
use crate::path_inner::built_ok;
use crate::path_inner::PathInner;

verus! {

/// Conversion that may additionally check that the target exists on the
/// host. The engine itself never touches the filesystem, so implementations
/// belong to callers that do.
pub trait TryExist<T>: Sized {
    /// Performs the conversion.
    fn try_exist(value: T) -> Result<Self, PathError>;
}

/// A directory path in canonical form; any canonical path is acceptable.
#[derive(Debug)]
pub struct AnyDir(pub PathInner);

impl AnyDir {
    /// Resolves and validates `raw` as a directory path.
    pub fn new(raw: &str, ctx: &ResolutionContext, profile: OsProfile) -> (r: Result<
        AnyDir,
        PathError,
    >)
        ensures
            match r {
                Ok(d) => built_ok(d.0, raw@, *ctx, profile),
                Err(e) => build_err(e, raw@, *ctx, profile),
            },
    {
        match PathInner::new(raw, ctx, profile) {
            Ok(p) => AnyDir(p).validate(),
            Err(e) => Err(e),
        }
    }

    /// The structural check specific to this kind: any canonical path
    /// qualifies as a directory path, so this always succeeds.
    pub fn validate(self) -> (r: Result<AnyDir, PathError>)
        ensures
            r == Ok::<AnyDir, PathError>(self),
    {
        Ok(self)
    }
}

} // verus!
