//! The directories the library reads its configuration from.
use vstd::prelude::*;

use crate::error::LearnerError;
use crate::text::{concat, ends_with, owned, spec_ends_with};

verus! {

/// What `Path::new(base).join(child)` yields, as text (with the separator of
/// the platform the library is built for).
pub uninterp spec fn spec_path_join(base: Seq<char>, child: Seq<char>) -> Seq<char>;

/// Calls `std::path::Path::join` on a base path and a child path, both given
/// as text, and gives the result as text. The contract names the result.
#[verifier::external_body]
fn path_join(base: &str, child: &str) -> (r: String)
    ensures
        r@ == spec_path_join(base@, child@),
{
    std::path::Path::new(base).join(child).to_string_lossy().into_owned()
}

/// The configuration directories of the library.
#[derive(Debug, Clone)]
pub struct Environment {
    config_dir: String,
    resources_dir: String,
    retrievers_dir: String,
}

/// Builder for constructing Environment instances with custom paths.
#[derive(Debug, Clone)]
pub struct EnvironmentBuilder {
    config_dir: Option<String>,
    resources_dir: Option<String>,
    retrievers_dir: Option<String>,
}

impl Default for EnvironmentBuilder {
    fn default() -> (r: EnvironmentBuilder)
        ensures
            r.spec_config_dir() is None,
            r.spec_resources_dir() is None,
            r.spec_retrievers_dir() is None,
    {
        EnvironmentBuilder { config_dir: None, resources_dir: None, retrievers_dir: None }
    }
}

/// The name of a configuration file: `name`, with `.toml` appended unless it
/// already ends with it.
pub open spec fn spec_toml_file(name: Seq<char>) -> Seq<char> {
    if spec_ends_with(name, ".toml"@) {
        name
    } else {
        name + ".toml"@
    }
}

fn toml_file(name: &str) -> (r: String)
    ensures
        r@ == spec_toml_file(name@),
{
    if !ends_with(name, ".toml") {
        concat(name, ".toml")
    } else {
        owned(name)
    }
}

impl Environment {
    /// The base configuration directory.
    pub closed spec fn spec_config_dir(&self) -> Seq<char> {
        self.config_dir@
    }

    /// The directory of resource configurations.
    pub closed spec fn spec_resources_dir(&self) -> Seq<char> {
        self.resources_dir@
    }

    /// The directory of retriever configurations.
    pub closed spec fn spec_retrievers_dir(&self) -> Seq<char> {
        self.retrievers_dir@
    }

    /// Starts building a new environment.
    pub fn builder() -> (r: EnvironmentBuilder)
        ensures
            r.spec_config_dir() is None,
            r.spec_resources_dir() is None,
            r.spec_retrievers_dir() is None,
    {
        EnvironmentBuilder::default()
    }

    /// Creates an environment; the subdirectories default to `resources` and
    /// `retrievers` under the configuration directory.
    fn new(config_dir: String, resources_dir: Option<String>, retrievers_dir: Option<String>) -> (r:
        Environment)
        ensures
            r.spec_config_dir() == config_dir@,
            r.spec_resources_dir() == match resources_dir {
                Some(d) => d@,
                None => spec_path_join(config_dir@, "resources"@),
            },
            r.spec_retrievers_dir() == match retrievers_dir {
                Some(d) => d@,
                None => spec_path_join(config_dir@, "retrievers"@),
            },
    {
        let resources = match resources_dir {
            Some(d) => d,
            None => path_join(config_dir.as_str(), "resources"),
        };
        let retrievers = match retrievers_dir {
            Some(d) => d,
            None => path_join(config_dir.as_str(), "retrievers"),
        };
        Environment { config_dir, resources_dir: resources, retrievers_dir: retrievers }
    }

    /// The path of a resource configuration file.
    pub fn resolve_resource_path(&self, name: &str) -> (r: String)
        ensures
            r@ == spec_path_join(self.spec_resources_dir(), spec_toml_file(name@)),
    {
        let file = toml_file(name);
        path_join(self.resources_dir.as_str(), file.as_str())
    }

    /// The path of a retriever configuration file.
    pub fn resolve_retriever_path(&self, name: &str) -> (r: String)
        ensures
            r@ == spec_path_join(self.spec_retrievers_dir(), spec_toml_file(name@)),
    {
        let file = toml_file(name);
        path_join(self.retrievers_dir.as_str(), file.as_str())
    }

    /// The base configuration directory.
    pub fn config_dir(&self) -> (r: String)
        ensures
            r@ == self.spec_config_dir(),
    {
        self.config_dir.clone()
    }

    /// The directory of resource configurations.
    pub fn resources_dir(&self) -> (r: String)
        ensures
            r@ == self.spec_resources_dir(),
    {
        self.resources_dir.clone()
    }

    /// The directory of retriever configurations.
    pub fn retrievers_dir(&self) -> (r: String)
        ensures
            r@ == self.spec_retrievers_dir(),
    {
        self.retrievers_dir.clone()
    }
}

impl EnvironmentBuilder {
    /// The configuration directory set so far.
    pub closed spec fn spec_config_dir(&self) -> Option<String> {
        self.config_dir
    }

    /// The resources directory set so far.
    pub closed spec fn spec_resources_dir(&self) -> Option<String> {
        self.resources_dir
    }

    /// The retrievers directory set so far.
    pub closed spec fn spec_retrievers_dir(&self) -> Option<String> {
        self.retrievers_dir
    }

    /// Sets the base configuration directory.
    pub fn config_dir(self, path: &str) -> (r: EnvironmentBuilder)
        ensures
            r.spec_config_dir() matches Some(d) && d@ == path@,
            r.spec_resources_dir() == self.spec_resources_dir(),
            r.spec_retrievers_dir() == self.spec_retrievers_dir(),
    {
        EnvironmentBuilder {
            config_dir: Some(owned(path)),
            resources_dir: self.resources_dir,
            retrievers_dir: self.retrievers_dir,
        }
    }

    /// Sets the directory of resource configurations.
    pub fn resources_dir(self, path: &str) -> (r: EnvironmentBuilder)
        ensures
            r.spec_resources_dir() matches Some(d) && d@ == path@,
            r.spec_config_dir() == self.spec_config_dir(),
            r.spec_retrievers_dir() == self.spec_retrievers_dir(),
    {
        EnvironmentBuilder {
            config_dir: self.config_dir,
            resources_dir: Some(owned(path)),
            retrievers_dir: self.retrievers_dir,
        }
    }

    /// Sets the directory of retriever configurations.
    pub fn retrievers_dir(self, path: &str) -> (r: EnvironmentBuilder)
        ensures
            r.spec_retrievers_dir() matches Some(d) && d@ == path@,
            r.spec_config_dir() == self.spec_config_dir(),
            r.spec_resources_dir() == self.spec_resources_dir(),
    {
        EnvironmentBuilder {
            config_dir: self.config_dir,
            resources_dir: self.resources_dir,
            retrievers_dir: Some(owned(path)),
        }
    }

    /// Builds the environment; the configuration directory must have been set.
    pub fn build(self) -> (r: Result<Environment, LearnerError>)
        ensures
            self.spec_config_dir() is None <==> r is Err,
            r matches Err(e) ==> e == LearnerError::Config(e->Config_0) && e->Config_0@
                == "Configuration directory must be specified"@,
            r matches Ok(env) ==> {
                &&& env.spec_config_dir() == self.spec_config_dir()->Some_0@
                &&& env.spec_resources_dir() == match self.spec_resources_dir() {
                    Some(d) => d@,
                    None => spec_path_join(self.spec_config_dir()->Some_0@, "resources"@),
                }
                &&& env.spec_retrievers_dir() == match self.spec_retrievers_dir() {
                    Some(d) => d@,
                    None => spec_path_join(self.spec_config_dir()->Some_0@, "retrievers"@),
                }
            },
    {
        match self.config_dir {
            None => Err(LearnerError::Config(owned("Configuration directory must be specified"))),
            Some(dir) => Ok(Environment::new(dir, self.resources_dir, self.retrievers_dir)),
        }
    }
}

/// Naming a configuration file with or without its `.toml` extension names
/// the same file: the extension is added once.
pub proof fn lemma_toml_file_once(name: Seq<char>)
    ensures
        spec_toml_file(spec_toml_file(name)) == spec_toml_file(name),
        !spec_ends_with(name, ".toml"@) ==> spec_toml_file(name + ".toml"@) == spec_toml_file(name),
{
    let t = ".toml"@;
    let with = name + t;
    assert(with.subrange(with.len() - t.len(), with.len() as int) =~= t);
}

} // verus!
