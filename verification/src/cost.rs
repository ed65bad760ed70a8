//! Cost estimation: which cost provider an infrastructure asks for, and where
//! in the project tree a cost command was started.

use vstd::prelude::*;
use crate::dependency_graph::{environment_at, environment_file_of, project_file_of};
use crate::fs::{fs_file, fs_has, MemoryFileSystem};
use crate::paths::join;
use crate::resources::{project_text_spec, EnvironmentResource, ProjectResource};
use crate::text::str_eq;

verus! {

broadcast use vstd::string::group_string_axioms;

/// Monthly cost limits, in cents: above `warn` a warning is shown, above
/// `block` an error.
pub struct CostThresholds {
    pub warn: Option<u64>,
    pub block: Option<u64>,
}

/// Settings for cost checks run in CI.
pub struct CostCiConfig {
    pub enabled: bool,
}

/// The `cost` section of an infrastructure.
pub struct CostConfig {
    /// Name of the cost provider.
    pub provider: String,
    /// Environment variable that holds the provider's API key.
    pub api_key_env: Option<String>,
    pub thresholds: Option<CostThresholds>,
    pub ci: Option<CostCiConfig>,
}

/// A cost provider that the tool can run.
pub enum CostProvider {
    /// Infracost, with the environment variable holding its API key, if any.
    Infracost { api_key_env: Option<String> },
}

impl CostProvider {
    /// The provider's name, as shown to the user.
    pub fn get_name(&self) -> (r: &'static str)
        ensures
            r@ == "infracost"@,
    {
        match self {
            CostProvider::Infracost { .. } => "infracost",
        }
    }
}

/// Where a cost command was started: in an environment directory (its path,
/// project and environment name), in a project directory (its path and
/// project name), or elsewhere.
pub enum WorkLocation {
    Environment(String, String, String),
    Project(String, String),
    Elsewhere,
}

/// The name of the provider that `config` asks for; `infracost` by default.
pub open spec fn provider_name(config: Option<&CostConfig>) -> Seq<char> {
    match config {
        Some(c) => c.provider@,
        None => "infracost"@,
    }
}

/// The project named by the project file in `dir`, when it holds one.
pub open spec fn project_name_at(v: Seq<(Seq<char>, Option<Seq<char>>)>, dir: Seq<char>) -> Option<Seq<char>> {
    match fs_file(v, project_file_of(dir)) {
        Some(t) => project_text_spec(t),
        None => None,
    }
}

/// Handles cost estimation commands.
pub struct CostCommand;

impl CostCommand {
    /// The cost provider that `cost_config` asks for: Infracost (the default),
    /// with the configured API key variable. Any other provider is refused.
    pub fn create_provider(cost_config: Option<&CostConfig>) -> (r: Result<CostProvider, String>)
        ensures
            r is Ok <==> provider_name(cost_config) == "infracost"@,
            r matches Ok(CostProvider::Infracost { api_key_env }) ==> match cost_config {
                Some(c) => match (c.api_key_env, api_key_env) {
                    (Some(a), Some(b)) => a@ == b@,
                    (None, None) => true,
                    _ => false,
                },
                None => api_key_env is None,
            },
            r matches Err(e) ==> e@ == "Unsupported cost provider: "@ + provider_name(cost_config),
    {
        let name: &str = match cost_config {
            Some(c) => c.provider.as_str(),
            None => "infracost",
        };
        if str_eq(name, "infracost") {
            let api_key_env = match cost_config {
                Some(c) => match &c.api_key_env {
                    Some(a) => Some(a.clone()),
                    None => None,
                },
                None => None,
            };
            Ok(CostProvider::Infracost { api_key_env })
        } else {
            let mut e = "Unsupported cost provider: ".to_owned();
            e.append(name);
            Err(e)
        }
    }

    /// Where in the project tree the directory `dir` lies: an environment
    /// directory when it holds an environment file, otherwise a project
    /// directory when it holds a project file. A file there that does not
    /// load is an error.
    pub fn detect_location(fs: &MemoryFileSystem, dir: &str) -> (r: Result<WorkLocation, String>)
        ensures
            fs_has(fs@, environment_file_of(dir@)) ==> match r {
                Ok(WorkLocation::Environment(p, name, env)) => p@ == dir@ && environment_at(
                    fs@,
                    dir@,
                ) is Some && environment_at(fs@, dir@).unwrap().2 == name@ && environment_at(
                    fs@,
                    dir@,
                ).unwrap().3 == env@,
                Ok(_) => false,
                Err(_) => environment_at(fs@, dir@) is None,
            },
            !fs_has(fs@, environment_file_of(dir@)) && fs_has(fs@, project_file_of(dir@)) ==> match r {
                Ok(WorkLocation::Project(p, name)) => p@ == dir@ && project_name_at(fs@, dir@)
                    == Some(name@),
                Ok(_) => false,
                Err(_) => project_name_at(fs@, dir@) is None,
            },
            !fs_has(fs@, environment_file_of(dir@)) && !fs_has(fs@, project_file_of(dir@)) ==> r
                matches Ok(WorkLocation::Elsewhere),
    {
        let env_file = join(dir, ".pmp.environment.yaml");
        if fs.path_exists(env_file.as_str()) {
            return match EnvironmentResource::from_file(fs, env_file.as_str()) {
                Ok(resource) => Ok(
                    WorkLocation::Environment(
                        dir.to_owned(),
                        resource.metadata.name,
                        resource.metadata.environment_name,
                    ),
                ),
                Err(e) => Err(e),
            };
        }
        let project_file = join(dir, ".pmp.project.yaml");
        if fs.path_exists(project_file.as_str()) {
            return match ProjectResource::from_file(fs, project_file.as_str()) {
                Ok(resource) => Ok(WorkLocation::Project(dir.to_owned(), resource.metadata.name)),
                Err(e) => Err(e),
            };
        }
        Ok(WorkLocation::Elsewhere)
    }
}

} // verus!
