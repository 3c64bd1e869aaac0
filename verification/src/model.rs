//! Core data model: projects, groups, pipeline variables, and the
//! permission threshold that makes a project eligible for an update.

use vstd::prelude::*;

verus! {

/// Access level at or above which the token holder may write project
/// settings ("Maintainer or above" on the host's 0-60 scale).
pub const MAINTAINER_ACCESS_LEVEL: u64 = 40;

/// A project as returned by the host's membership listing: an identifier
/// that is unique per host, a display name, and — in the flat listing
/// only — the caller's numeric access level on the project.
pub struct Project {
    pub id: u64,
    pub name: String,
    pub access_level: Option<u64>,
}

/// A project is eligible for the variable update only when the listing
/// attached an access level and that level reaches the Maintainer
/// threshold.
pub open spec fn eligible(p: Project) -> bool {
    match p.access_level {
        Some(level) => level >= MAINTAINER_ACCESS_LEVEL,
        None => false,
    }
}

impl Project {
    /// Whether this project may receive the variable update.
    pub fn is_eligible(&self) -> (r: bool)
        ensures
            r == eligible(*self),
    {
        match self.access_level {
            Some(level) => level >= MAINTAINER_ACCESS_LEVEL,
            None => false,
        }
    }
}

/// A group as returned by the host: a traversal node of the group tree,
/// never itself the target of a variable write.
pub struct Group {
    pub id: u64,
    pub name: String,
    pub full_path: String,
}

/// A pipeline variable to be written to a project: a key, a value, and a
/// kind tag that is always the constant `env_var` (a plain environment
/// variable, as opposed to a file-type variable). Constructed fresh per
/// project right before the write and discarded after it.
pub struct PipelineVariable {
    pub key: String,
    pub value: String,
    pub variable_type: String,
}

impl PipelineVariable {
    /// The kind tag carries the fixed `env_var` constant.
    pub open spec fn wf(&self) -> bool {
        self.variable_type@ == "env_var"@
    }

    /// Builds the variable with the fixed `env_var` kind tag.
    pub fn new(key: String, value: String) -> (v: PipelineVariable)
        ensures
            v.wf(),
            v.key@ == key@,
            v.value@ == value@,
    {
        PipelineVariable { key, value, variable_type: "env_var".to_owned() }
    }
}

} // verus!
