//! Canonical, comparable, platform-independent filesystem paths, resolved
//! entirely in memory: shorthand prefixes (`~`, `.`) and environment-variable
//! references are expanded against an injected context, segments are
//! normalized (empty pieces dropped, adjacent `component/..` pairs cancelled),
//! and the result is validated and stored in a structured canonical form that
//! renders back to a native or shorthand string.

mod any_dir;
mod chars;
mod context;
mod envs;
mod errors;
mod laws;
mod os;
mod path_inner;
mod segment;
mod str_values;

pub use any_dir::AnyDir;
pub use any_dir::TryExist;
pub use chars::is_slash;
pub use chars::str_ci_eq;
pub use context::ResolutionContext;
pub use envs::contract_envs;
pub use envs::expand_envs;
pub use envs::expand_vars;
pub use envs::prefix_current_dir;
pub use envs::prefix_home_dir;
pub use envs::remove_abs_start;
pub use envs::Start;
pub use errors::PathError;
pub use laws::lemma_case_insensitive_equal;
pub use laws::lemma_key_decides_equality;
pub use laws::lemma_normalize_idempotent;
pub use laws::lemma_round_trip;
pub use os::Os;
pub use os::OsProfile;
pub use path_inner::validate_component;
pub use path_inner::Marker;
pub use path_inner::PathInner;
pub use segment::segs;
pub use segment::InnerSegmentIter;
pub use str_values::StrValues;
