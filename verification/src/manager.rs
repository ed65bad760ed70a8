//! An infrastructure loaded into memory: its description, its root directory
//! and the projects found under it.

use vstd::prelude::*;
use crate::discovery::{
    all_found_projects, infrastructure_file_of, is_nearest_collection, no_collection_above,
    CollectionDiscovery,
};
use crate::fs::{dir_prefixes, fs_file, fs_has, fs_is_dir, fs_is_file, MemoryFileSystem};
use crate::paths::{join, join_spec};
use crate::resources::{
    documents_infrastructure, infrastructure_view, InfrastructureMetadata, InfrastructureResource,
    ProjectReference,
};
use crate::text::{contains, eq_ignore_ascii_case, eq_ignore_ascii_case_spec, has_substring, lowercase, to_lowercase};
use crate::yaml::{emit_yaml_checked, yaml_text};

verus! {

broadcast use vstd::string::group_string_axioms;

/// An infrastructure, where it lies, and its projects.
pub struct CollectionManager {
    infrastructure: InfrastructureResource,
    root_path: String,
    projects: Vec<ProjectReference>,
}

/// The references behind a list of borrowed references.
pub open spec fn derefs(s: Seq<&ProjectReference>) -> Seq<ProjectReference> {
    s.map_values(|p: &ProjectReference| *p)
}

/// The projects of `ps`, in order, whose lower-cased name contains `needle`.
pub open spec fn projects_named(ps: Seq<ProjectReference>, needle: Seq<char>) -> Seq<ProjectReference>
    decreases ps.len(),
{
    if ps.len() == 0 {
        Seq::empty()
    } else {
        let rest = projects_named(ps.drop_last(), needle);
        if has_substring(lowercase(ps.last().name@), needle) {
            rest.push(ps.last())
        } else {
            rest
        }
    }
}

/// The projects of `ps`, in order, whose kind equals `kind` up to ASCII case.
pub open spec fn projects_of_kind(ps: Seq<ProjectReference>, kind: Seq<char>) -> Seq<ProjectReference>
    decreases ps.len(),
{
    if ps.len() == 0 {
        Seq::empty()
    } else {
        let rest = projects_of_kind(ps.drop_last(), kind);
        if eq_ignore_ascii_case_spec(ps.last().kind@, kind) {
            rest.push(ps.last())
        } else {
            rest
        }
    }
}

/// The message given when no infrastructure lies at or above the directory.
pub open spec fn not_found_here_message() -> Seq<char> {
    "No Infrastructure found in current directory or parent directories"@
}

/// The message given when no infrastructure lies at or above the given path.
pub open spec fn not_found_at_message() -> Seq<char> {
    "No Infrastructure found at the specified path"@
}

/// The message given when an infrastructure file is already there.
pub open spec fn already_exists_message() -> Seq<char> {
    "A .pmp.infrastructure.yaml file already exists at this location"@
}

impl CollectionManager {
    /// The loaded infrastructure.
    pub closed spec fn infrastructure_spec(&self) -> InfrastructureResource {
        self.infrastructure
    }

    /// The root directory of the infrastructure.
    pub closed spec fn root_spec(&self) -> Seq<char> {
        self.root_path@
    }

    /// The projects found in the infrastructure.
    pub closed spec fn projects_spec(&self) -> Seq<ProjectReference> {
        self.projects@
    }

    /// Whether this manager holds what `fs` shows for the infrastructure that
    /// lies nearest at or above `start`: its description, its root, and
    /// projects that each describe a project file under the root.
    pub open spec fn loaded_from(&self, v: Seq<(Seq<char>, Option<Seq<char>>)>, start: Seq<char>) -> bool {
        &&& is_nearest_collection(v, start, self.root_spec())
        &&& crate::discovery::infrastructure_at(v, self.root_spec()) == Some(
            infrastructure_view(self.infrastructure_spec()),
        )
        &&& all_found_projects(
            v,
            join_spec(self.root_spec(), "projects"@),
            self.root_spec(),
            self.projects_spec(),
        )
    }

    /// Loads the infrastructure that lies nearest at or above `start`, with
    /// its projects; problems with single project files go to `warnings`.
    fn load_at(fs: &MemoryFileSystem, warnings: &mut Vec<String>, start: &str, not_found: &str) -> (r:
        Result<Self, String>)
        ensures
            no_collection_above(fs@, start@) ==> (r matches Err(e) && e@ == not_found@),
            r matches Ok(m) ==> m.loaded_from(fs@, start@),
    {
        let found = match CollectionDiscovery::find_collection_in_path(fs, start) {
            Ok(f) => f,
            Err(e) => {
                return Err(e);
            },
        };
        let (infrastructure, root_path) = match found {
            Some(x) => x,
            None => {
                return Err(not_found.to_owned());
            },
        };
        proof {
            if no_collection_above(fs@, start@) {
                let k = choose|k: int|
                    0 <= k < crate::discovery::ancestors(start@).len()
                        && crate::discovery::ancestors(start@)[k] == root_path@
                        && crate::discovery::infrastructure_at(fs@, root_path@) is Some
                        && forall|j: int|
                        0 <= j < k ==> crate::discovery::infrastructure_at(
                            fs@,
                            #[trigger] crate::discovery::ancestors(start@)[j],
                        ) is None;
                assert(crate::discovery::infrastructure_at(
                    fs@,
                    crate::discovery::ancestors(start@)[k],
                ) is None);
            }
        }
        let projects = match CollectionDiscovery::discover_projects(fs, warnings, root_path.as_str()) {
            Ok(p) => p,
            Err(e) => {
                return Err(e);
            },
        };
        Ok(CollectionManager { infrastructure, root_path, projects })
    }

    /// Loads the infrastructure that lies at or above the directory
    /// `current_dir`, with its projects; problems with single project files
    /// go to `warnings`.
    pub fn load(fs: &MemoryFileSystem, warnings: &mut Vec<String>, current_dir: &str) -> (r: Result<
        Self,
        String,
    >)
        ensures
            no_collection_above(fs@, current_dir@) ==> (r matches Err(e) && e@
                == not_found_here_message()),
            r matches Ok(m) ==> m.loaded_from(fs@, current_dir@),
    {
        let msg = "No Infrastructure found in current directory or parent directories";
        proof {
            reveal_strlit("No Infrastructure found in current directory or parent directories");
        }
        Self::load_at(fs, warnings, current_dir, msg)
    }

    /// Loads the infrastructure that lies at or above `path`, with its
    /// projects; problems with single project files go to `warnings`.
    pub fn load_from_path(fs: &MemoryFileSystem, warnings: &mut Vec<String>, path: &str) -> (r: Result<
        Self,
        String,
    >)
        ensures
            no_collection_above(fs@, path@) ==> (r matches Err(e) && e@
                == not_found_at_message()),
            r matches Ok(m) ==> m.loaded_from(fs@, path@),
    {
        let msg = "No Infrastructure found at the specified path";
        proof {
            reveal_strlit("No Infrastructure found at the specified path");
        }
        Self::load_at(fs, warnings, path, msg)
    }

    /// Makes a new infrastructure named `name` in the directory `path`: writes
    /// its file and makes its `projects` directory. Refuses where an
    /// infrastructure file is already there.
    pub fn create(
        fs: &mut MemoryFileSystem,
        path: &str,
        name: String,
        description: Option<String>,
    ) -> (r: Result<Self, String>)
        ensures
            fs_has(old(fs)@, infrastructure_file_of(path@)) ==> (r matches Err(e) && e@ == already_exists_message()) && final(fs)@
                == old(fs)@,
            r matches Ok(m) ==> {
                &&& m.root_spec() == path@
                &&& m.projects_spec().len() == 0
                &&& m.infrastructure_spec().api_version@ == "pmp.io/v1"@
                &&& m.infrastructure_spec().kind@ == "Infrastructure"@
                &&& m.infrastructure_spec().metadata.name == name
                &&& m.infrastructure_spec().metadata.description == description
                &&& exists|doc|
                    documents_infrastructure(doc, m.infrastructure_spec()) && fs_file(
                        final(fs)@,
                        infrastructure_file_of(path@),
                    ) == Some(yaml_text(doc))
                &&& fs_is_dir(final(fs)@, join_spec(path@, "projects"@))
            },
    {
        let pmp_file = join(path, ".pmp.infrastructure.yaml");
        if fs.path_exists(pmp_file.as_str()) {
            proof {
                reveal_strlit("A .pmp.infrastructure.yaml file already exists at this location");
            }
            return Err("A .pmp.infrastructure.yaml file already exists at this location".to_owned());
        }
        let infrastructure = InfrastructureResource {
            api_version: "pmp.io/v1".to_owned(),
            kind: "Infrastructure".to_owned(),
            metadata: InfrastructureMetadata { name, description },
        };
        let doc = infrastructure.to_yaml();
        let text = match emit_yaml_checked(&doc) {
            Ok(t) => t,
            Err(e) => {
                return Err(e);
            },
        };
        match fs.write(pmp_file.as_str(), text.as_str()) {
            Ok(()) => {},
            Err(e) => {
                return Err(e);
            },
        }
        let ghost written = fs@;
        let projects_dir = join(path, "projects");
        match fs.create_dir_all(projects_dir.as_str()) {
            Ok(()) => {},
            Err(e) => {
                return Err(e);
            },
        }
        proof {
            reveal_strlit("projects");
            assert(projects_dir@.len() > 0);
            assert(dir_prefixes(projects_dir@).contains(projects_dir@));
            assert(fs_is_dir(fs@, projects_dir@));
            assert(crate::fs::fs_index(fs@, pmp_file@) >= -1 ==> fs_file(fs@, pmp_file@) == fs_file(
                written,
                pmp_file@,
            ));
        }
        Ok(CollectionManager { infrastructure, root_path: path.to_owned(), projects: Vec::new() })
    }

    /// Looks for the projects again; problems with single project files go
    /// to `warnings`. On failure the manager stays as it was.
    pub fn refresh_projects(&mut self, fs: &MemoryFileSystem, warnings: &mut Vec<String>) -> (r:
        Result<(), String>)
        ensures
            final(self).infrastructure_spec() == old(self).infrastructure_spec(),
            final(self).root_spec() == old(self).root_spec(),
            r is Err ==> final(self).projects_spec() == old(self).projects_spec(),
            r is Ok ==> all_found_projects(
                fs@,
                join_spec(old(self).root_spec(), "projects"@),
                old(self).root_spec(),
                final(self).projects_spec(),
            ),
            match crate::discovery::discovery(fs@, old(self).root_spec()) {
                Some(found) => r is Ok && crate::discovery::refs_view(final(self).projects_spec()) == found,
                None => r is Err,
            },
    {
        match CollectionDiscovery::discover_projects(fs, warnings, self.root_path.as_str()) {
            Ok(p) => {
                self.projects = p;
                Ok(())
            },
            Err(e) => Err(e),
        }
    }

    /// The projects whose name contains `name`, ignoring case.
    pub fn find_by_name(&self, name: &str) -> (r: Vec<&ProjectReference>)
        ensures
            derefs(r@) == projects_named(self.projects_spec(), lowercase(name@)),
    {
        let name_lower = to_lowercase(name);
        let mut found: Vec<&ProjectReference> = Vec::new();
        let mut i: usize = 0;
        while i < self.projects.len()
            invariant
                0 <= i <= self.projects.len(),
                name_lower@ == lowercase(name@),
                derefs(found@) == projects_named(self.projects@.take(i as int), name_lower@),
            decreases self.projects.len() - i,
        {
            let p = &self.projects[i];
            proof {
                assert(self.projects@.take(i + 1).drop_last() =~= self.projects@.take(i as int));
                assert(self.projects@.take(i + 1).last() == *p);
            }
            let ghost before = found@;
            let lower = to_lowercase(p.name.as_str());
            if contains(lower.as_str(), name_lower.as_str()) {
                found.push(p);
                assert(derefs(found@) =~= derefs(before).push(*p));
            }
            i = i + 1;
        }
        assert(self.projects@.take(self.projects@.len() as int) =~= self.projects@);
        found
    }

    /// The projects whose kind is `kind`, ignoring ASCII case.
    pub fn find_by_kind(&self, kind: &str) -> (r: Vec<&ProjectReference>)
        ensures
            derefs(r@) == projects_of_kind(self.projects_spec(), kind@),
    {
        let mut found: Vec<&ProjectReference> = Vec::new();
        let mut i: usize = 0;
        while i < self.projects.len()
            invariant
                0 <= i <= self.projects.len(),
                derefs(found@) == projects_of_kind(self.projects@.take(i as int), kind@),
            decreases self.projects.len() - i,
        {
            let p = &self.projects[i];
            proof {
                assert(self.projects@.take(i + 1).drop_last() =~= self.projects@.take(i as int));
                assert(self.projects@.take(i + 1).last() == *p);
            }
            let ghost before = found@;
            if eq_ignore_ascii_case(p.kind.as_str(), kind) {
                found.push(p);
                assert(derefs(found@) =~= derefs(before).push(*p));
            }
            i = i + 1;
        }
        assert(self.projects@.take(self.projects@.len() as int) =~= self.projects@);
        found
    }

    /// All projects of the infrastructure.
    pub fn get_all_projects(&self) -> (r: &[ProjectReference])
        ensures
            r@ == self.projects_spec(),
    {
        self.projects.as_slice()
    }

    /// The name and description of the infrastructure.
    pub fn get_metadata(&self) -> (r: &InfrastructureMetadata)
        ensures
            *r == self.infrastructure_spec().metadata,
    {
        &self.infrastructure.metadata
    }

    /// The root directory of the infrastructure.
    pub fn get_root_path(&self) -> (r: &str)
        ensures
            r@ == self.root_spec(),
    {
        self.root_path.as_str()
    }

    /// The directory of `project`, below the root.
    pub fn get_project_path(&self, project: &ProjectReference) -> (r: String)
        ensures
            r@ == join_spec(self.root_spec(), project.path@),
    {
        join(self.root_path.as_str(), project.path.as_str())
    }
}

} // verus!
