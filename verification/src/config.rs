//! The identity of a project, as its configuration file records it.

use vstd::prelude::*;
use vstd::string::*;

verus! {

/// The version of the configuration that this library writes and reads.
pub const CONFIG_VERSION: u64 = 0;

/// The identity of a project: set once when the project is initialised and
/// never changed after.
#[derive(Debug)]
pub struct ProjectConfig {
    pub version: u64,
    /// An opaque identifier, drawn at random when the project is initialised.
    pub project_id: String,
    /// The identity at the root of the project's trust.
    pub project_trust_root: String,
}

/// A project configuration as plain values.
pub struct ProjectConfigView {
    pub version: u64,
    pub project_id: Seq<char>,
    pub project_trust_root: Seq<char>,
}

impl View for ProjectConfig {
    type V = ProjectConfigView;

    open spec fn view(&self) -> ProjectConfigView {
        ProjectConfigView {
            version: self.version,
            project_id: self.project_id@,
            project_trust_root: self.project_trust_root@,
        }
    }
}

/// Why a configuration cannot be used.
#[derive(Clone, Copy, Debug, PartialEq, Eq, Structural)]
pub enum ConfigError {
    /// The configuration has a version that this library does not know. It is
    /// never reinterpreted as another version.
    UnsupportedVersion(u64),
    /// The project identifier is empty.
    MissingProjectId,
}

impl ProjectConfig {
    /// The configuration of a newly initialised project.
    pub fn new(project_id: String, project_trust_root: String) -> (config: ProjectConfig)
        ensures
            config@ == (ProjectConfigView {
                version: CONFIG_VERSION,
                project_id: project_id@,
                project_trust_root: project_trust_root@,
            }),
    {
        ProjectConfig { version: CONFIG_VERSION, project_id, project_trust_root }
    }

    /// The defect of a configuration, if it has one: an unknown version comes
    /// before a missing identifier.
    pub open spec fn defect(config: ProjectConfigView) -> Option<ConfigError> {
        if config.version != CONFIG_VERSION {
            Some(ConfigError::UnsupportedVersion(config.version))
        } else if config.project_id.len() == 0 {
            Some(ConfigError::MissingProjectId)
        } else {
            None
        }
    }

    /// Checks a configuration that was read from a file.
    pub fn check(&self) -> (checked: Result<(), ConfigError>)
        ensures
            checked == match ProjectConfig::defect(self@) {
                None => Ok::<(), ConfigError>(()),
                Some(e) => Err(e),
            },
    {
        if self.version != CONFIG_VERSION {
            Err(ConfigError::UnsupportedVersion(self.version))
        } else if self.project_id.as_str().unicode_len() == 0 {
            Err(ConfigError::MissingProjectId)
        } else {
            Ok(())
        }
    }
}

impl Clone for ProjectConfig {
    fn clone(&self) -> (copy: ProjectConfig)
        ensures
            copy@ == self@,
    {
        ProjectConfig {
            version: self.version,
            project_id: self.project_id.clone(),
            project_trust_root: self.project_trust_root.clone(),
        }
    }
}

impl Default for ProjectConfig {
    /// A configuration of the current version that names no project.
    fn default() -> (config: ProjectConfig)
        ensures
            config@ == (ProjectConfigView {
                version: CONFIG_VERSION,
                project_id: Seq::empty(),
                project_trust_root: Seq::empty(),
            }),
    {
        ProjectConfig {
            version: CONFIG_VERSION,
            project_id: String::new(),
            project_trust_root: String::new(),
        }
    }
}

} // verus!
