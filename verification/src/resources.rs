//! The resource files of an infrastructure: environments, projects and the
//! infrastructure itself, read out of their YAML documents.

use vstd::prelude::*;
use crate::fs::{fs_file, MemoryFileSystem};
use crate::text::concat;
use crate::yaml::{entries_get, parse_yaml, yaml_document, yaml_get, yaml_get_opt, yaml_str, YamlValue};

verus! {

broadcast use vstd::string::group_string_axioms;

/// A project that an environment depends on, and which of its environments.
pub struct ProjectDependency {
    pub name: String,
    pub environments: Vec<String>,
    /// Whether the dependency may be missing because it is to be created later.
    pub create: bool,
}

/// One entry of an environment's `spec.dependencies`.
pub struct Dependency {
    pub project: ProjectDependency,
}

/// The `metadata` of an environment.
pub struct EnvironmentMetadata {
    pub name: String,
    pub environment_name: String,
}

/// The `spec` of an environment, as far as the commands read it.
pub struct EnvironmentSpec {
    pub dependencies: Vec<Dependency>,
}

/// An environment of a project (`.pmp.environment.yaml`).
pub struct EnvironmentResource {
    pub api_version: String,
    pub kind: String,
    pub metadata: EnvironmentMetadata,
    pub spec: EnvironmentSpec,
}

/// The `metadata` of a project.
pub struct ProjectMetadata {
    pub name: String,
}

/// A project (`.pmp.project.yaml`).
pub struct ProjectResource {
    pub api_version: String,
    pub kind: String,
    pub metadata: ProjectMetadata,
}

/// The `metadata` of an infrastructure.
pub struct InfrastructureMetadata {
    pub name: String,
    pub description: Option<String>,
}

/// An infrastructure (`.pmp.infrastructure.yaml`).
pub struct InfrastructureResource {
    pub api_version: String,
    pub kind: String,
    pub metadata: InfrastructureMetadata,
}

/// A project found in an infrastructure: its name, the kind of resource its
/// environments hold, and its directory relative to the infrastructure root.
pub struct ProjectReference {
    pub name: String,
    pub kind: String,
    pub path: String,
}

/// A dependency as plain values: project name, environments, `create`.
pub type DependencyView = (Seq<char>, Seq<Seq<char>>, bool);

/// The views of a list of strings.
pub open spec fn strings_view(v: Seq<String>) -> Seq<Seq<char>> {
    v.map_values(|s: String| s@)
}

impl View for Dependency {
    type V = DependencyView;

    open spec fn view(&self) -> DependencyView {
        (self.project.name@, strings_view(self.project.environments@), self.project.create)
    }
}

/// The views of a list of dependencies.
pub open spec fn deps_view(deps: Seq<Dependency>) -> Seq<DependencyView> {
    deps.map_values(|d: Dependency| d@)
}

/// The list of strings held by `v`: nothing when absent, the items of a
/// sequence whose items are all strings; otherwise no list.
pub open spec fn string_list_spec(v: Option<YamlValue>) -> Option<Seq<Seq<char>>> {
    match v {
        None => Some(Seq::<Seq<char>>::empty()),
        Some(YamlValue::Sequence(xs)) => if forall|i: int|
            0 <= i < xs@.len() ==> #[trigger] xs@[i] is Str {
            Some(xs@.map_values(|x: YamlValue| yaml_str(Some(x)).unwrap()))
        } else {
            None
        },
        _ => None,
    }
}

/// A flag that defaults to `false` when absent.
pub open spec fn flag_spec(v: Option<YamlValue>) -> Option<bool> {
    match v {
        None => Some(false),
        Some(YamlValue::Bool(b)) => Some(b),
        _ => None,
    }
}

/// One dependency entry: a mapping whose `project` has a string `name`, an
/// optional list of `environments` and an optional `create` flag.
pub open spec fn dependency_spec(item: YamlValue) -> Option<DependencyView> {
    let project = yaml_get(item, "project"@);
    let name = yaml_str(yaml_get_opt(project, "name"@));
    let envs = string_list_spec(
        yaml_get_opt(
            project,
            "environments"@,
        ),
    );
    let create = flag_spec(yaml_get_opt(project, "create"@));
    if name is Some && envs is Some && create is Some {
        Some((name.unwrap(), envs.unwrap(), create.unwrap()))
    } else {
        None
    }
}

/// The dependency list held by `v`: empty when absent, otherwise a sequence
/// of valid dependency entries.
pub open spec fn dependencies_spec(v: Option<YamlValue>) -> Option<Seq<DependencyView>> {
    match v {
        None => Some(Seq::<DependencyView>::empty()),
        Some(YamlValue::Sequence(xs)) => if forall|i: int|
            0 <= i < xs@.len() ==> #[trigger] dependency_spec(xs@[i]) is Some {
            Some(xs@.map_values(|x: YamlValue| dependency_spec(x).unwrap()))
        } else {
            None
        },
        _ => None,
    }
}

/// The plain values of an environment document: `apiVersion`, `kind`,
/// `metadata.name`, `metadata.environment_name` and `spec.dependencies`.
pub type EnvironmentView = (Seq<char>, Seq<char>, Seq<char>, Seq<char>, Seq<DependencyView>);

/// What an environment document holds, when it is one.
pub open spec fn environment_spec(doc: YamlValue) -> Option<EnvironmentView> {
    let api = yaml_str(yaml_get(doc, "apiVersion"@));
    let kind = yaml_str(yaml_get(doc, "kind"@));
    let meta = yaml_get(doc, "metadata"@);
    let name = yaml_str(yaml_get_opt(meta, "name"@));
    let env = yaml_str(
        yaml_get_opt(
            meta,
            "environment_name"@,
        ),
    );
    let spec = yaml_get(doc, "spec"@);
    let deps = match spec {
        Some(YamlValue::Mapping(_)) => dependencies_spec(
            yaml_get_opt(
                spec,
                "dependencies"@,
            ),
        ),
        _ => None,
    };
    if api is Some && kind is Some && name is Some && env is Some && deps is Some {
        Some((api.unwrap(), kind.unwrap(), name.unwrap(), env.unwrap(), deps.unwrap()))
    } else {
        None
    }
}

impl View for EnvironmentResource {
    type V = EnvironmentView;

    open spec fn view(&self) -> EnvironmentView {
        (
            self.api_version@,
            self.kind@,
            self.metadata.name@,
            self.metadata.environment_name@,
            deps_view(self.spec.dependencies@),
        )
    }
}

/// What the text of an environment file holds, when it is one.
pub open spec fn environment_text_spec(text: Seq<char>) -> Option<EnvironmentView> {
    match yaml_document(text) {
        Ok(doc) => environment_spec(doc),
        Err(_) => None,
    }
}

/// The project name of a project document (`metadata.name`, beside
/// `apiVersion` and `kind`), when it is one.
pub open spec fn project_spec(doc: YamlValue) -> Option<Seq<char>> {
    let api = yaml_str(yaml_get(doc, "apiVersion"@));
    let kind = yaml_str(yaml_get(doc, "kind"@));
    let name = yaml_str(
        yaml_get_opt(
            yaml_get(doc, "metadata"@),
            "name"@,
        ),
    );
    if api is Some && kind is Some && name is Some {
        name
    } else {
        None
    }
}

/// The project name held by the text of a project file, when it is one.
pub open spec fn project_text_spec(text: Seq<char>) -> Option<Seq<char>> {
    match yaml_document(text) {
        Ok(doc) => project_spec(doc),
        Err(_) => None,
    }
}

/// The value behind an optional reference.
pub open spec fn opt_deref(v: Option<&YamlValue>) -> Option<YamlValue> {
    match v {
        Some(x) => Some(*x),
        None => None,
    }
}

/// The name and description of an infrastructure document (`metadata.name`,
/// an optional string `metadata.description`, beside `apiVersion` and `kind`),
/// when it is one.
pub open spec fn infrastructure_spec(doc: YamlValue) -> Option<(Seq<char>, Option<Seq<char>>)> {
    let api = yaml_str(yaml_get(doc, "apiVersion"@));
    let kind = yaml_str(yaml_get(doc, "kind"@));
    let meta = yaml_get(doc, "metadata"@);
    let name = yaml_str(yaml_get_opt(meta, "name"@));
    let desc = yaml_get_opt(meta, "description"@);
    let desc_ok = match desc {
        None => true,
        Some(YamlValue::Null) => true,
        Some(YamlValue::Str(_)) => true,
        _ => false,
    };
    if api is Some && kind is Some && name is Some && desc_ok {
        Some((name.unwrap(), yaml_str(desc)))
    } else {
        None
    }
}

/// What the text of an infrastructure file holds, when it is one.
pub open spec fn infrastructure_text_spec(text: Seq<char>) -> Option<(Seq<char>, Option<Seq<char>>)> {
    match yaml_document(text) {
        Ok(doc) => infrastructure_spec(doc),
        Err(_) => None,
    }
}

/// The `apiVersion` and `kind` strings of a document, where it has them.
pub open spec fn resource_header(doc: YamlValue) -> (Option<Seq<char>>, Option<Seq<char>>) {
    (yaml_str(yaml_get(doc, "apiVersion"@)), yaml_str(yaml_get(doc, "kind"@)))
}

/// The `apiVersion` and `kind` of the document that `text` holds, when it
/// holds one.
pub open spec fn text_header(text: Seq<char>) -> Option<(Option<Seq<char>>, Option<Seq<char>>)> {
    match yaml_document(text) {
        Ok(doc) => Some(resource_header(doc)),
        Err(_) => None,
    }
}

/// The plain values of an infrastructure's metadata.
pub open spec fn infrastructure_view(i: InfrastructureResource) -> (Seq<char>, Option<Seq<char>>) {
    (
        i.metadata.name@,
        match i.metadata.description {
            Some(d) => Some(d@),
            None => None,
        },
    )
}

/// The list of strings held by `v`.
fn string_list(v: Option<&YamlValue>) -> (r: Option<Vec<String>>)
    ensures
        r matches Some(l) ==> string_list_spec(opt_deref(v)) == Some(strings_view(l@)),
        r is None ==> string_list_spec(opt_deref(v)) is None,
{
    match v {
        None => {
            let r: Vec<String> = Vec::new();
            assert(strings_view(r@) =~= Seq::<Seq<char>>::empty());
            Some(r)
        },
        Some(YamlValue::Sequence(xs)) => {
            let ghost vv = opt_deref(v);
            let mut out: Vec<String> = Vec::new();
            let mut i: usize = 0;
            while i < xs.len()
                invariant
                    vv == Some(YamlValue::Sequence(*xs)),
                    vv == opt_deref(v),
                    0 <= i <= xs.len(),
                    out@.len() == i,
                    forall|j: int| 0 <= j < i ==> #[trigger] xs@[j] is Str,
                    forall|j: int|
                        0 <= j < i ==> yaml_str(Some(xs@[j])) == Some(#[trigger] out@[j]@),
                decreases xs.len() - i,
            {
                match xs[i].as_str() {
                    Some(s) => {
                        out.push(s.clone());
                    },
                    None => {
                        assert(!(xs@[i as int] is Str));
                        assert(string_list_spec(vv) is None);
                        return None;
                    },
                }
                i = i + 1;
            }
            assert(strings_view(out@) =~= xs@.map_values(
                |x: YamlValue| yaml_str(Some(x)).unwrap(),
            ));
            Some(out)
        },
        Some(_) => None,
    }
}

/// A flag that defaults to `false` when absent.
fn flag(v: Option<&YamlValue>) -> (r: Option<bool>)
    ensures
        r == flag_spec(opt_deref(v)),
{
    match v {
        None => Some(false),
        Some(YamlValue::Bool(b)) => Some(*b),
        Some(_) => None,
    }
}

/// Reads one dependency entry.
fn dependency_from(item: &YamlValue) -> (r: Option<Dependency>)
    ensures
        r matches Some(d) ==> dependency_spec(*item) == Some(d@),
        r is None ==> dependency_spec(*item) is None,
{
    let project = item.get("project");
    let name = match project {
        Some(p) => match p.get("name") {
            Some(n) => n.as_str(),
            None => None,
        },
        None => None,
    };
    let envs = match project {
        Some(p) => string_list(p.get("environments")),
        None => string_list(None),
    };
    let create = match project {
        Some(p) => flag(p.get("create")),
        None => flag(None),
    };
    match (name, envs, create) {
        (Some(n), Some(e), Some(c)) => Some(
            Dependency { project: ProjectDependency { name: n.clone(), environments: e, create: c } },
        ),
        _ => None,
    }
}

/// Reads the dependency list held by `v`.
fn dependencies_from(v: Option<&YamlValue>) -> (r: Option<Vec<Dependency>>)
    ensures
        r matches Some(l) ==> dependencies_spec(opt_deref(v)) == Some(
            deps_view(l@),
        ),
        r is None ==> dependencies_spec(opt_deref(v)) is None,
{
    match v {
        None => {
            let r: Vec<Dependency> = Vec::new();
            assert(deps_view(r@) =~= Seq::<DependencyView>::empty());
            Some(r)
        },
        Some(YamlValue::Sequence(xs)) => {
            let ghost vv = opt_deref(v);
            let mut out: Vec<Dependency> = Vec::new();
            let mut i: usize = 0;
            while i < xs.len()
                invariant
                    vv == Some(YamlValue::Sequence(*xs)),
                    vv == opt_deref(v),
                    0 <= i <= xs.len(),
                    out@.len() == i,
                    forall|j: int| 0 <= j < i ==> #[trigger] dependency_spec(xs@[j]) is Some,
                    forall|j: int|
                        0 <= j < i ==> dependency_spec(xs@[j]) == Some(#[trigger] out@[j]@),
                decreases xs.len() - i,
            {
                match dependency_from(&xs[i]) {
                    Some(d) => {
                        out.push(d);
                    },
                    None => {
                        assert(dependency_spec(xs@[i as int]) is None);
                        assert(dependencies_spec(vv) is None);
                        return None;
                    },
                }
                i = i + 1;
            }
            assert(deps_view(out@) =~= xs@.map_values(
                |x: YamlValue| dependency_spec(x).unwrap(),
            ));
            Some(out)
        },
        Some(_) => None,
    }
}

/// The text of the string under `key` of `v`.
fn str_field(v: Option<&YamlValue>, key: &str) -> (r: Option<String>)
    ensures
        r matches Some(s) ==> yaml_str(yaml_get_opt(opt_deref(v), key@)) == Some(s@),
        r is None ==> yaml_str(yaml_get_opt(opt_deref(v), key@)) is None,
{
    match v {
        Some(x) => match x.get(key) {
            Some(f) => match f.as_str() {
                Some(s) => Some(s.clone()),
                None => None,
            },
            None => None,
        },
        None => None,
    }
}

impl EnvironmentResource {
    /// Reads an environment out of its document.
    pub fn from_yaml(doc: &YamlValue) -> (r: Result<EnvironmentResource, String>)
        ensures
            r matches Ok(e) ==> environment_spec(*doc) == Some(e@),
            r is Err ==> environment_spec(*doc) is None,
    {
        let api = str_field(Some(doc), "apiVersion");
        let kind = str_field(Some(doc), "kind");
        let meta = doc.get("metadata");
        let name = str_field(meta, "name");
        let env = str_field(meta, "environment_name");
        let spec = doc.get("spec");
        let deps = match spec {
            Some(YamlValue::Mapping(_)) => {
                let s = spec.unwrap();
                dependencies_from(s.get("dependencies"))
            },
            _ => None,
        };
        match (api, kind, name, env, deps) {
            (Some(a), Some(k), Some(n), Some(e), Some(d)) => Ok(
                EnvironmentResource {
                    api_version: a,
                    kind: k,
                    metadata: EnvironmentMetadata { name: n, environment_name: e },
                    spec: EnvironmentSpec { dependencies: d },
                },
            ),
            _ => Err(
                "Invalid environment resource: expected apiVersion, kind, metadata.name, metadata.environment_name and spec".to_owned(),
            ),
        }
    }

    /// Reads an environment out of the text of its file.
    pub fn from_text(text: &str) -> (r: Result<EnvironmentResource, String>)
        ensures
            r matches Ok(e) ==> environment_text_spec(text@) == Some(e@),
            r is Err ==> environment_text_spec(text@) is None,
    {
        match parse_yaml(text) {
            Ok(doc) => EnvironmentResource::from_yaml(&doc),
            Err(e) => Err(e),
        }
    }

    /// Reads the environment file `path` of `fs`.
    pub fn from_file(fs: &MemoryFileSystem, path: &str) -> (r: Result<EnvironmentResource, String>)
        ensures
            r matches Ok(e) ==> fs_file(fs@, path@) matches Some(t) && environment_text_spec(t)
                == Some(e@),
            r is Err ==> !(fs_file(fs@, path@) matches Some(t) && environment_text_spec(t) is Some),
    {
        match fs.read_to_string(path) {
            Ok(text) => match EnvironmentResource::from_text(text.as_str()) {
                Ok(e) => Ok(e),
                Err(e) => Err(concat("Failed to load environment resource: ", path)),
            },
            Err(e) => Err(e),
        }
    }
}

impl InfrastructureResource {
    /// Reads an infrastructure out of its document.
    pub fn from_yaml(doc: &YamlValue) -> (r: Result<InfrastructureResource, String>)
        ensures
            r matches Ok(i) ==> infrastructure_spec(*doc) == Some(infrastructure_view(i)),
            r matches Ok(i) ==> resource_header(*doc) == (Some(i.api_version@), Some(i.kind@)),
            r is Err ==> infrastructure_spec(*doc) is None,
    {
        let api = str_field(Some(doc), "apiVersion");
        let kind = str_field(Some(doc), "kind");
        let meta = doc.get("metadata");
        let name = str_field(meta, "name");
        let desc_v = match meta {
            Some(m) => m.get("description"),
            None => None,
        };
        let (desc_ok, desc) = match desc_v {
            None => (true, None),
            Some(YamlValue::Null) => (true, None),
            Some(YamlValue::Str(d)) => (true, Some(d.clone())),
            Some(_) => (false, None),
        };
        match (api, kind, name) {
            (Some(a), Some(k), Some(n)) => {
                if desc_ok {
                    Ok(
                        InfrastructureResource {
                            api_version: a,
                            kind: k,
                            metadata: InfrastructureMetadata { name: n, description: desc },
                        },
                    )
                } else {
                    Err("Invalid infrastructure resource: metadata.description must be a string".to_owned())
                }
            },
            _ => Err(
                "Invalid infrastructure resource: expected apiVersion, kind and metadata.name".to_owned(),
            ),
        }
    }

    /// Reads the infrastructure file `path` of `fs`.
    pub fn from_file(fs: &MemoryFileSystem, path: &str) -> (r: Result<InfrastructureResource, String>)
        ensures
            r matches Ok(i) ==> fs_file(fs@, path@) matches Some(t) && infrastructure_text_spec(t)
                == Some(infrastructure_view(i)),
            r matches Ok(i) ==> fs_file(fs@, path@) matches Some(t) && text_header(t) == Some(
                (Some(i.api_version@), Some(i.kind@)),
            ),
            r is Err ==> !(fs_file(fs@, path@) matches Some(t) && infrastructure_text_spec(t) is Some),
    {
        match fs.read_to_string(path) {
            Ok(text) => match parse_yaml(text.as_str()) {
                Ok(doc) => match InfrastructureResource::from_yaml(&doc) {
                    Ok(i) => Ok(i),
                    Err(e) => Err(concat("Failed to load infrastructure file: ", path)),
                },
                Err(e) => Err(concat("Failed to load infrastructure file: ", path)),
            },
            Err(e) => Err(e),
        }
    }
}

/// Whether `v` is the string `s`.
pub open spec fn str_is(v: YamlValue, s: Seq<char>) -> bool {
    v matches YamlValue::Str(t) && t@ == s
}

/// Whether `doc` is the document written for the infrastructure `i`: a mapping
/// of `apiVersion`, `kind` and `metadata`, in that order, where `metadata`
/// maps `name`, then `description` when there is one.
pub open spec fn documents_infrastructure(doc: YamlValue, i: InfrastructureResource) -> bool {
    &&& doc matches YamlValue::Mapping(m) && m@.len() == 3
    &&& str_is(doc->Mapping_0@[0].0, "apiVersion"@) && str_is(doc->Mapping_0@[0].1, i.api_version@)
    &&& str_is(doc->Mapping_0@[1].0, "kind"@) && str_is(doc->Mapping_0@[1].1, i.kind@)
    &&& str_is(doc->Mapping_0@[2].0, "metadata"@)
    &&& doc->Mapping_0@[2].1 matches YamlValue::Mapping(meta) && meta@.len() == (if i.metadata.description is Some { 2int } else { 1int })
    &&& str_is(doc->Mapping_0@[2].1->Mapping_0@[0].0, "name"@)
    &&& str_is(doc->Mapping_0@[2].1->Mapping_0@[0].1, i.metadata.name@)
    &&& i.metadata.description matches Some(d) ==> str_is(doc->Mapping_0@[2].1->Mapping_0@[1].0, "description"@)
        && str_is(doc->Mapping_0@[2].1->Mapping_0@[1].1, d@)
}

impl InfrastructureResource {
    /// The document to write for this infrastructure. It reads back as the
    /// same infrastructure.
    pub fn to_yaml(&self) -> (r: YamlValue)
        ensures
            documents_infrastructure(r, *self),
            infrastructure_spec(r) == Some(infrastructure_view(*self)),
    {
        let mut meta: Vec<(YamlValue, YamlValue)> = Vec::new();
        meta.push((YamlValue::Str("name".to_owned()), YamlValue::Str(self.metadata.name.clone())));
        match &self.metadata.description {
            Some(d) => {
                meta.push((YamlValue::Str("description".to_owned()), YamlValue::Str(d.clone())));
            },
            None => {},
        }
        let mut top: Vec<(YamlValue, YamlValue)> = Vec::new();
        top.push((YamlValue::Str("apiVersion".to_owned()), YamlValue::Str(self.api_version.clone())));
        top.push((YamlValue::Str("kind".to_owned()), YamlValue::Str(self.kind.clone())));
        top.push((YamlValue::Str("metadata".to_owned()), YamlValue::Mapping(meta)));
        let r = YamlValue::Mapping(top);
        proof {
            reveal_strlit("apiVersion");
            reveal_strlit("kind");
            reveal_strlit("metadata");
            reveal_strlit("name");
            reveal_strlit("description");
            let t = r->Mapping_0@;
            let m = t[2].1->Mapping_0@;
            assert(t.drop_first().drop_first()[0] == t[2]);
            assert(entries_get(t, "apiVersion"@) == Some(t[0].1));
            assert("kind"@ != "apiVersion"@) by {
                assert("kind"@.len() != "apiVersion"@.len());
            }
            assert("metadata"@ != "apiVersion"@) by {
                assert("metadata"@.len() != "apiVersion"@.len());
            }
            assert("metadata"@ != "kind"@) by {
                assert("metadata"@.len() != "kind"@.len());
            }
            assert(t.drop_first()[0] == t[1]);
            assert(entries_get(t.drop_first(), "kind"@) == Some(t[1].1));
            assert(entries_get(t, "kind"@) == Some(t[1].1));
            assert(entries_get(t.drop_first().drop_first(), "metadata"@) == Some(t[2].1));
            assert(entries_get(t.drop_first(), "metadata"@) == Some(t[2].1));
            assert(entries_get(t, "metadata"@) == Some(t[2].1));
            assert(entries_get(m, "name"@) == Some(m[0].1));
            assert("description"@ != "name"@) by {
                assert("description"@.len() != "name"@.len());
            }
            if self.metadata.description is Some {
                assert(m.drop_first()[0] == m[1]);
                assert(entries_get(m.drop_first(), "description"@) == Some(m[1].1));
                assert(entries_get(m, "description"@) == Some(m[1].1));
            } else {
                assert(m.drop_first().len() == 0);
                assert(entries_get(m.drop_first(), "description"@) is None);
                assert(entries_get(m, "description"@) is None);
            }
        }
        r
    }
}

impl ProjectResource {
    /// Reads a project out of its document.
    pub fn from_yaml(doc: &YamlValue) -> (r: Result<ProjectResource, String>)
        ensures
            r matches Ok(p) ==> project_spec(*doc) == Some(p.metadata.name@),
            r is Err ==> project_spec(*doc) is None,
    {
        let api = str_field(Some(doc), "apiVersion");
        let kind = str_field(Some(doc), "kind");
        let name = str_field(doc.get("metadata"), "name");
        match (api, kind, name) {
            (Some(a), Some(k), Some(n)) => Ok(
                ProjectResource { api_version: a, kind: k, metadata: ProjectMetadata { name: n } },
            ),
            _ => Err(
                "Invalid project resource: expected apiVersion, kind and metadata.name".to_owned(),
            ),
        }
    }

    /// Reads the project file `path` of `fs`.
    pub fn from_file(fs: &MemoryFileSystem, path: &str) -> (r: Result<ProjectResource, String>)
        ensures
            r matches Ok(p) ==> fs_file(fs@, path@) matches Some(t) && project_text_spec(t) == Some(
                p.metadata.name@,
            ),
            r is Err ==> !(fs_file(fs@, path@) matches Some(t) && project_text_spec(t) is Some),
            r matches Err(e) ==> e@ == if crate::fs::fs_is_file(fs@, path@) {
                "Failed to load project file: "@ + path@
            } else if crate::fs::fs_has(fs@, path@) {
                "Not a file: "@ + path@
            } else {
                "File not found: "@ + path@
            },
    {
        match fs.read_to_string(path) {
            Ok(text) => match parse_yaml(text.as_str()) {
                Ok(doc) => match ProjectResource::from_yaml(&doc) {
                    Ok(p) => Ok(p),
                    Err(e) => Err(concat("Failed to load project file: ", path)),
                },
                Err(e) => Err(concat("Failed to load project file: ", path)),
            },
            Err(e) => Err(e),
        }
    }
}

} // verus!
