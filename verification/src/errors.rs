//! One error family: "invalid path". Every variant embeds the offending text
//! so a caller can render a self-contained message.

use vstd::prelude::*;

verus! {

/// Why a textual path was rejected by resolution or validation.
#[derive(Debug, PartialEq, Eq)]
pub enum PathError {
    /// A variable reference with an empty key, e.g. `${}`; embeds the whole
    /// path being expanded.
    EmptyEnvVar { path: String },
    /// A well-formed reference to a variable the context does not define;
    /// embeds the variable name.
    UndefinedEnvVar { name: String },
    /// A component longer than 255 characters.
    ComponentTooLong { component: String },
    /// A component holding a character the active profile forbids.
    ForbiddenChar { component: String, ch: char },
    /// A component that is a reserved device name (with or without extension).
    ReservedName { component: String },
}

impl PathError {
    /// The rendered message for this error.
    pub open spec fn spec_message(self) -> Seq<char> {
        match self {
            PathError::EmptyEnvVar { path } => "empty environment variable in path: "@ + path@,
            PathError::UndefinedEnvVar { name } => "environment variable is not defined: "@
                + name@,
            PathError::ComponentTooLong { component } => "path component longer than 255 characters: "@
                + component@,
            PathError::ForbiddenChar { component, ch } => "forbidden character in path component: "@
                + component@,
            PathError::ReservedName { component } => "reserved file name in path component: "@
                + component@,
        }
    }

    /// Builds the human-readable message, always embedding the offending text.
    pub fn message(&self) -> (r: String)
        ensures
            r@ == self.spec_message(),
    {
        match self {
            PathError::EmptyEnvVar { path } => String::from_str(
                "empty environment variable in path: ",
            ).concat(path.as_str()),
            PathError::UndefinedEnvVar { name } => String::from_str(
                "environment variable is not defined: ",
            ).concat(name.as_str()),
            PathError::ComponentTooLong { component } => String::from_str(
                "path component longer than 255 characters: ",
            ).concat(component.as_str()),
            PathError::ForbiddenChar { component, ch } => String::from_str(
                "forbidden character in path component: ",
            ).concat(component.as_str()),
            PathError::ReservedName { component } => String::from_str(
                "reserved file name in path component: ",
            ).concat(component.as_str()),
        }
    }
}

} // verus!
