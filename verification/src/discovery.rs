//! Finding an infrastructure above a directory, and the projects and
//! environments inside it.

use vstd::prelude::*;
use crate::fs::{
    children_spec, descendants_spec, fs_file, fs_has, fs_is_dir, fs_is_file, is_root,
    MemoryFileSystem,
};
use crate::paths::{
    file_name, file_name_spec, join, join_spec, last_index_of, lemma_last_index_of, parent,
    parent_spec, strip_prefix, strip_prefix_spec,
};
use crate::resources::{
    environment_text_spec, infrastructure_text_spec, infrastructure_view, project_text_spec,
    EnvironmentResource, InfrastructureResource, ProjectReference, ProjectResource,
};
use crate::text::{concat, is_sorted, sort_strings, str_eq, views_of};

verus! {

broadcast use vstd::string::group_string_axioms;

/// Finds infrastructures and the projects and environments they hold.
pub struct CollectionDiscovery;

/// The parent of a path that is not a root is shorter than it.
pub proof fn lemma_parent_shorter(p: Seq<char>)
    requires
        !is_root(p),
    ensures
        parent_spec(p).len() < p.len(),
{
    lemma_last_index_of(p, '/');
    let k = last_index_of(p, '/');
    if k == 0 && p.len() == 1 {
        assert(p =~= seq!['/']);
    }
    if k < 0 && p.len() == 0 {
        assert(p =~= Seq::<char>::empty());
    }
}

/// `p` and each directory above it, up to and including a root (`/` or the
/// empty path), as `PathBuf::pop` walks them.
pub open spec fn ancestors(p: Seq<char>) -> Seq<Seq<char>>
    decreases p.len(),
{
    if is_root(p) {
        seq![p]
    } else {
        proof {
            lemma_parent_shorter(p);
        }
        seq![p] + ancestors(parent_spec(p))
    }
}

/// The infrastructure file of the directory `dir`.
pub open spec fn infrastructure_file_of(dir: Seq<char>) -> Seq<char> {
    join_spec(dir, ".pmp.infrastructure.yaml"@)
}

/// The infrastructure that the directory `dir` of `v` holds, when its file is one.
pub open spec fn infrastructure_at(v: Seq<(Seq<char>, Option<Seq<char>>)>, dir: Seq<char>) -> Option<
    (Seq<char>, Option<Seq<char>>),
> {
    match fs_file(v, infrastructure_file_of(dir)) {
        Some(t) => infrastructure_text_spec(t),
        None => None,
    }
}

/// The `apiVersion` and `kind` of the infrastructure file in `dir`, when it
/// is a document.
pub open spec fn infrastructure_header_at(v: Seq<(Seq<char>, Option<Seq<char>>)>, dir: Seq<char>) -> Option<
    (Option<Seq<char>>, Option<Seq<char>>),
> {
    match fs_file(v, infrastructure_file_of(dir)) {
        Some(t) => crate::resources::text_header(t),
        None => None,
    }
}

/// Whether `dir` is the nearest directory, going up from `start`, that holds
/// an infrastructure.
pub open spec fn is_nearest_collection(
    v: Seq<(Seq<char>, Option<Seq<char>>)>,
    start: Seq<char>,
    dir: Seq<char>,
) -> bool {
    exists|k: int|
        0 <= k < ancestors(start).len() && ancestors(start)[k] == dir && infrastructure_at(v, dir)
            is Some && forall|j: int|
            0 <= j < k ==> infrastructure_at(v, #[trigger] ancestors(start)[j]) is None
}

/// Whether no directory, from `start` up to the root, holds an infrastructure.
pub open spec fn no_collection_above(v: Seq<(Seq<char>, Option<Seq<char>>)>, start: Seq<char>) -> bool {
    forall|j: int|
        0 <= j < ancestors(start).len() ==> infrastructure_at(v, #[trigger] ancestors(start)[j])
            is None
}

/// An infrastructure found going up from `start` rules out that there is
/// none.
pub proof fn lemma_nearest_excludes_none(v: Seq<(Seq<char>, Option<Seq<char>>)>, start: Seq<char>, dir: Seq<char>)
    requires
        is_nearest_collection(v, start, dir),
    ensures
        !no_collection_above(v, start),
{
    let k = choose|k: int|
        0 <= k < ancestors(start).len() && ancestors(start)[k] == dir && infrastructure_at(v, dir)
            is Some && forall|j: int|
            0 <= j < k ==> infrastructure_at(v, #[trigger] ancestors(start)[j]) is None;
    assert(infrastructure_at(v, ancestors(start)[k]) is Some);
}

/// At most one directory is the nearest infrastructure above `start`.
pub proof fn lemma_nearest_unique(
    v: Seq<(Seq<char>, Option<Seq<char>>)>,
    start: Seq<char>,
    a: Seq<char>,
    b: Seq<char>,
)
    requires
        is_nearest_collection(v, start, a),
        is_nearest_collection(v, start, b),
    ensures
        a == b,
{
    let ka = choose|k: int|
        0 <= k < ancestors(start).len() && ancestors(start)[k] == a && infrastructure_at(v, a)
            is Some && forall|j: int|
            0 <= j < k ==> infrastructure_at(v, #[trigger] ancestors(start)[j]) is None;
    let kb = choose|k: int|
        0 <= k < ancestors(start).len() && ancestors(start)[k] == b && infrastructure_at(v, b)
            is Some && forall|j: int|
            0 <= j < k ==> infrastructure_at(v, #[trigger] ancestors(start)[j]) is None;
    if ka < kb {
        assert(infrastructure_at(v, ancestors(start)[ka]) is None);
    } else if kb < ka {
        assert(infrastructure_at(v, ancestors(start)[kb]) is None);
    }
}

/// Whether an infrastructure lies at or above `start` and the projects
/// below the nearest one can all be read.
pub open spec fn projects_discoverable(v: Seq<(Seq<char>, Option<Seq<char>>)>, start: Seq<char>) -> bool {
    exists|root: Seq<char>| #[trigger] is_nearest_collection(v, start, root) && discovery(v, root) is Some
}

/// With `root` the nearest infrastructure above `start`, its projects can be
/// read exactly when discovery below it succeeds.
pub proof fn lemma_discoverable_at(v: Seq<(Seq<char>, Option<Seq<char>>)>, start: Seq<char>, root: Seq<char>)
    requires
        is_nearest_collection(v, start, root),
    ensures
        projects_discoverable(v, start) <==> discovery(v, root) is Some,
{
    if projects_discoverable(v, start) {
        let r = choose|r: Seq<char>| #[trigger] is_nearest_collection(v, start, r) && discovery(v, r) is Some;
        lemma_nearest_unique(v, start, r, root);
    }
}

/// The environments directory of the project directory `dir`.
pub open spec fn environments_dir_of(dir: Seq<char>) -> Seq<char> {
    join_spec(dir, "environments"@)
}

/// The names of the environments of the project in `dir`: each directory
/// inside its `environments` that holds an environment file, in file
/// system order.
pub open spec fn environment_names(v: Seq<(Seq<char>, Option<Seq<char>>)>, dir: Seq<char>) -> Seq<
    Seq<char>,
> {
    children_spec(v, environments_dir_of(dir)).filter_map(
        |c: Seq<char>|
            if fs_is_dir(v, c) && fs_has(v, join_spec(c, ".pmp.environment.yaml"@)) {
                Some(file_name_spec(c))
            } else {
                None
            },
    )
}

/// Whether the file `p` of `v` is a project file naming `name`.
pub open spec fn names_project(v: Seq<(Seq<char>, Option<Seq<char>>)>, p: Seq<char>, name: Seq<char>) -> bool {
    match fs_file(v, p) {
        Some(t) => project_text_spec(t) == Some(name),
        None => false,
    }
}

/// The kind of resource held by the environment file `p` of `v`, when it is one.
pub open spec fn environment_kind_at(v: Seq<(Seq<char>, Option<Seq<char>>)>, p: Seq<char>) -> Option<Seq<char>> {
    match fs_file(v, p) {
        Some(t) => match environment_text_spec(t) {
            Some(e) => Some(e.1),
            None => None,
        },
        None => None,
    }
}

/// The directory holding `p`, relative to `root` where it lies inside it.
pub open spec fn relative_dir(p: Seq<char>, root: Seq<char>) -> Seq<char> {
    match strip_prefix_spec(parent_spec(p), root) {
        Some(rel) => rel,
        None => parent_spec(p),
    }
}

/// Whether `r` describes the project file `p` of `v` found under `root`.
pub open spec fn describes_project(
    v: Seq<(Seq<char>, Option<Seq<char>>)>,
    p: Seq<char>,
    root: Seq<char>,
    r: ProjectReference,
) -> bool {
    &&& file_name_spec(p) == ".pmp.project.yaml"@
    &&& names_project(v, p, r.name@)
    &&& r.path@ == relative_dir(p, root)
}

/// Whether every reference of `refs` describes a project file inside the
/// `projects` directory of `root` (at most a hundred levels down).
pub open spec fn all_found_projects(
    v: Seq<(Seq<char>, Option<Seq<char>>)>,
    projects_dir: Seq<char>,
    root: Seq<char>,
    refs: Seq<ProjectReference>,
) -> bool {
    forall|x: int|
        #![trigger refs[x]]
        0 <= x < refs.len() ==> exists|i: int|
            0 <= i < descendants_spec(v, projects_dir, 100).len() && describes_project(
                v,
                #[trigger] descendants_spec(v, projects_dir, 100)[i],
                root,
                refs[x],
            )
}

/// The kind held by the first valid environment file among the paths `ps`.
pub open spec fn first_kind(v: Seq<(Seq<char>, Option<Seq<char>>)>, ps: Seq<Seq<char>>) -> Option<Seq<char>>
    decreases ps.len(),
{
    if ps.len() == 0 {
        None
    } else if fs_is_file(v, ps[0]) && file_name_spec(ps[0]) == ".pmp.environment.yaml"@
        && environment_kind_at(v, ps[0]) is Some {
        environment_kind_at(v, ps[0])
    } else {
        first_kind(v, ps.drop_first())
    }
}

/// The kind of the project in `dir`: that of the first valid environment
/// file at most two levels into its `environments` directory.
pub open spec fn project_kind(v: Seq<(Seq<char>, Option<Seq<char>>)>, dir: Seq<char>) -> Option<Seq<char>> {
    let ed = environments_dir_of(dir);
    if fs_is_dir(v, ed) {
        first_kind(v, descendants_spec(v, ed, 2))
    } else {
        None
    }
}

/// Whether `p` of `v` is a project file that loads, naming `name`.
pub open spec fn valid_project_file(v: Seq<(Seq<char>, Option<Seq<char>>)>, p: Seq<char>) -> Option<Seq<char>> {
    if fs_is_file(v, p) && file_name_spec(p) == ".pmp.project.yaml"@ {
        match fs_file(v, p) {
            Some(t) => project_text_spec(t),
            None => None,
        }
    } else {
        None
    }
}

/// Whether looking at the path `p` stops the discovery: a project file
/// that loads, of a project whose kind cannot be found.
pub open spec fn project_without_kind(v: Seq<(Seq<char>, Option<Seq<char>>)>, p: Seq<char>) -> bool {
    valid_project_file(v, p) is Some && project_kind(v, parent_spec(p)) is None
}

/// The projects found among the paths `ps` under `root`, as plain values
/// (name, kind, directory relative to `root`), in order: each project file
/// that loads, with the kind of its environments.
pub open spec fn found_projects(
    v: Seq<(Seq<char>, Option<Seq<char>>)>,
    root: Seq<char>,
    ps: Seq<Seq<char>>,
) -> Seq<(Seq<char>, Seq<char>, Seq<char>)>
    decreases ps.len(),
{
    if ps.len() == 0 {
        Seq::empty()
    } else {
        let p = ps.last();
        found_projects(v, root, ps.drop_last()) + match (valid_project_file(v, p), project_kind(v, parent_spec(p))) {
            (Some(n), Some(k)) => seq![(n, k, relative_dir(p, root))],
            _ => Seq::empty(),
        }
    }
}

/// What discovering the projects of the infrastructure at `root` gives:
/// none without a `projects` directory; the projects found at most a
/// hundred levels down in it; nothing (a failure) where `projects` is no
/// directory or a project's kind cannot be found.
pub open spec fn discovery(v: Seq<(Seq<char>, Option<Seq<char>>)>, root: Seq<char>) -> Option<
    Seq<(Seq<char>, Seq<char>, Seq<char>)>,
> {
    let pd = join_spec(root, "projects"@);
    if !fs_has(v, pd) {
        Some(Seq::empty())
    } else if !fs_is_dir(v, pd) {
        None
    } else {
        let all = descendants_spec(v, pd, 100);
        if exists|i: int| 0 <= i < all.len() && project_without_kind(v, #[trigger] all[i]) {
            None
        } else {
            Some(found_projects(v, root, all))
        }
    }
}

/// Project references as plain values.
pub open spec fn refs_view(refs: Seq<ProjectReference>) -> Seq<(Seq<char>, Seq<char>, Seq<char>)> {
    refs.map_values(|r: ProjectReference| (r.name@, r.kind@, r.path@))
}

impl CollectionDiscovery {
    /// Looks for an infrastructure in `start_path` and the directories above
    /// it; the nearest one that holds a valid infrastructure file wins.
    pub fn find_collection_in_path(fs: &MemoryFileSystem, start_path: &str) -> (r: Result<
        Option<(InfrastructureResource, String)>,
        String,
    >)
        ensures
            r is Ok,
            r matches Ok(Some(found)) ==> is_nearest_collection(fs@, start_path@, found.1@)
                && infrastructure_at(fs@, found.1@) == Some(infrastructure_view(found.0)),
            r matches Ok(Some(found)) ==> infrastructure_header_at(fs@, found.1@) == Some(
                (Some(found.0.api_version@), Some(found.0.kind@)),
            ),
            r matches Ok(None) ==> no_collection_above(fs@, start_path@),
    {
        let mut current = start_path.to_owned();
        let ghost all = ancestors(start_path@);
        let ghost mut k: int = 0;
        loop
            invariant
                all == ancestors(start_path@),
                0 <= k < all.len(),
                all.skip(k) == ancestors(current@),
                forall|j: int| 0 <= j < k ==> infrastructure_at(fs@, #[trigger] all[j]) is None,
            decreases current@.len(),
        {
            let pmp_file = join(current.as_str(), ".pmp.infrastructure.yaml");
            proof {
                assert(all.skip(k)[0] == all[k]);
                assert(all[k] == current@);
            }
            if fs.path_exists(pmp_file.as_str()) {
                match InfrastructureResource::from_file(fs, pmp_file.as_str()) {
                    Ok(infrastructure) => {
                        return Ok(Some((infrastructure, current)));
                    },
                    Err(_) => {},
                }
            }
            proof {
                if !fs_has(fs@, pmp_file@) {
                    assert(fs_file(fs@, pmp_file@) is None);
                }
            }
            let c = crate::text::to_chars(current.as_str());
            let root = c.len() == 0 || (c.len() == 1 && c[0] == '/');
            assert(root == is_root(current@)) by {
                if c.len() == 1 && c[0] == '/' {
                    assert(current@ =~= seq!['/']);
                }
            }
            if root {
                assert(all.skip(k).len() == 1);
                return Ok(None);
            }
            proof {
                lemma_parent_shorter(current@);
                let pa = parent_spec(current@);
                assert(ancestors(current@) == seq![current@] + ancestors(pa));
                assert(ancestors(pa).len() >= 1);
                assert(all.skip(k + 1) =~= all.skip(k).drop_first());
            }
            current = parent(current.as_str());
            proof {
                k = k + 1;
            }
        }
    }

    /// Whether `current_dir` lies in an infrastructure.
    pub fn is_in_collection(fs: &MemoryFileSystem, current_dir: &str) -> (r: Result<bool, String>)
        ensures
            r == Ok::<bool, String>(!no_collection_above(fs@, current_dir@)),
    {
        match Self::find_collection_in_path(fs, current_dir) {
            Ok(found) => Ok(found.is_some()),
            Err(e) => Err(e),
        }
    }

    /// The root directory of the infrastructure that `current_dir` lies in.
    pub fn get_collection_root(fs: &MemoryFileSystem, current_dir: &str) -> (r: Result<
        Option<String>,
        String,
    >)
        ensures
            r is Ok,
            r matches Ok(Some(root)) ==> is_nearest_collection(fs@, current_dir@, root@),
            r matches Ok(None) ==> no_collection_above(fs@, current_dir@),
    {
        match Self::find_collection_in_path(fs, current_dir) {
            Ok(Some((_, path))) => Ok(Some(path)),
            Ok(None) => Ok(None),
            Err(e) => Err(e),
        }
    }

    /// The names of the environments of the project in `project_dir`, sorted.
    pub fn discover_environments(fs: &MemoryFileSystem, project_dir: &str) -> (r: Result<
        Vec<String>,
        String,
    >)
        ensures
            r is Err <==> fs_has(fs@, environments_dir_of(project_dir@)) && !fs_is_dir(
                fs@,
                environments_dir_of(project_dir@),
            ),
            r matches Ok(v) ==> is_sorted(views_of(v@)),
            r matches Ok(v) ==> fs_has(fs@, environments_dir_of(project_dir@)) ==> views_of(
                v@,
            ).to_multiset() == environment_names(fs@, project_dir@).to_multiset(),
            r matches Ok(v) ==> !fs_has(fs@, environments_dir_of(project_dir@)) ==> v@.len() == 0,
    {
        let environments_dir = join(project_dir, "environments");
        if !fs.path_exists(environments_dir.as_str()) {
            let v: Vec<String> = Vec::new();
            assert(views_of(v@) =~= Seq::<Seq<char>>::empty());
            return Ok(v);
        }
        let entries = match fs.read_dir(environments_dir.as_str()) {
            Ok(e) => e,
            Err(_) => {
                return Err("Failed to read environments directory".to_owned());
            },
        };
        let ghost ch = children_spec(fs@, environments_dir@);
        let mut environments: Vec<String> = Vec::new();
        let mut i: usize = 0;
        assert(ch.take(0) =~= Seq::<Seq<char>>::empty());
        while i < entries.len()
            invariant
                0 <= i <= entries.len(),
                entries@.map_values(|s: String| s@) == ch,
                ch == children_spec(fs@, environments_dir@),
                environments_dir@ == environments_dir_of(project_dir@),
                views_of(environments@) == ch.take(i as int).filter_map(
                    |c: Seq<char>|
                        if fs_is_dir(fs@, c) && fs_has(fs@, join_spec(c, ".pmp.environment.yaml"@)) {
                            Some(file_name_spec(c))
                        } else {
                            None
                        },
                ),
            decreases entries.len() - i,
        {
            let entry_path = entries[i].as_str();
            proof {
                assert(entries@.map_values(|s: String| s@)[i as int] == entry_path@);
                assert(ch.take(i + 1).drop_last() =~= ch.take(i as int));
            }
            let ghost before = views_of(environments@);
            if fs.is_dir(entry_path) {
                let env_file = join(entry_path, ".pmp.environment.yaml");
                if fs.path_exists(env_file.as_str()) {
                    let name = file_name(entry_path);
                    environments.push(name);
                    assert(views_of(environments@) =~= before.push(file_name_spec(entry_path@)));
                }
            }
            i = i + 1;
        }
        assert(ch.take(ch.len() as int) =~= ch);
        let ghost found = views_of(environments@);
        sort_strings(&mut environments);
        Ok(environments)
    }

    /// The kind of resource held by the first valid environment file of the
    /// project in `project_dir` (looking at most two levels into its
    /// `environments`); invalid files are noted in `warnings`.
    fn get_project_kind(fs: &MemoryFileSystem, warnings: &mut Vec<String>, project_dir: &str) -> (r:
        Result<String, String>)
        ensures
            r matches Ok(kind) ==> exists|p: Seq<char>|
                #[trigger] descendants_spec(fs@, environments_dir_of(project_dir@), 2).contains(p)
                    && file_name_spec(p) == ".pmp.environment.yaml"@ && environment_kind_at(fs@, p)
                    == Some(kind@),
            match project_kind(fs@, project_dir@) {
                Some(k) => r matches Ok(kind) && kind@ == k,
                None => r is Err,
            },
    {
        let environments_dir = join(project_dir, "environments");
        if !fs.path_exists(environments_dir.as_str()) {
            return Err(concat("No environments directory found in project: ", project_dir));
        }
        let entries = match fs.walk_dir(environments_dir.as_str(), 2) {
            Ok(e) => e,
            Err(e) => {
                return Err(e);
            },
        };
        let ghost ds = descendants_spec(fs@, environments_dir@, 2);
        assert(ds.skip(0) =~= ds);
        let mut i: usize = 0;
        while i < entries.len()
            invariant
                0 <= i <= entries.len(),
                entries@.map_values(|s: String| s@) == descendants_spec(
                    fs@,
                    environments_dir@,
                    2,
                ),
                ds == descendants_spec(fs@, environments_dir@, 2),
                environments_dir@ == environments_dir_of(project_dir@),
                fs_is_dir(fs@, environments_dir@),
                first_kind(fs@, ds) == first_kind(fs@, ds.skip(i as int)),
            decreases entries.len() - i,
        {
            let path = entries[i].as_str();
            proof {
                assert(entries@.map_values(|s: String| s@)[i as int] == path@);
                assert(ds.skip(i as int)[0] == path@);
                assert(ds.skip(i as int).drop_first() =~= ds.skip(i + 1));
            }
            if fs.is_file(path) {
                let name = file_name(path);
                if str_eq(name.as_str(), ".pmp.environment.yaml") {
                    match EnvironmentResource::from_file(fs, path) {
                        Ok(resource) => {
                            proof {
                                assert(descendants_spec(fs@, environments_dir_of(project_dir@), 2).contains(path@));
                                assert(environment_kind_at(fs@, path@) == Some(resource.kind@));
                            }
                            return Ok(resource.kind);
                        },
                        Err(e) => {
                            let mut w = "Failed to load environment from ".to_owned();
                            w.append(path);
                            w.append(": ");
                            w.append(e.as_str());
                            warnings.push(w);
                        },
                    }
                }
            }
            i = i + 1;
        }
        assert(ds.skip(entries.len() as int) =~= Seq::<Seq<char>>::empty());
        Err(concat("No valid environment found in project: ", project_dir))
    }

    /// The projects of the infrastructure at `infrastructure_root`: each project
    /// file found in its `projects` directory (at any depth up to a hundred
    /// levels) that loads, with the kind of its environments and its directory
    /// relative to the root. Project files that fail to load are noted in
    /// `warnings` and skipped.
    pub fn discover_projects(
        fs: &MemoryFileSystem,
        warnings: &mut Vec<String>,
        infrastructure_root: &str,
    ) -> (r: Result<Vec<ProjectReference>, String>)
        ensures
            !fs_has(fs@, join_spec(infrastructure_root@, "projects"@)) ==> (r matches Ok(v)
                && v@.len() == 0),
            r matches Ok(v) ==> all_found_projects(
                fs@,
                join_spec(infrastructure_root@, "projects"@),
                infrastructure_root@,
                v@,
            ),
            match discovery(fs@, infrastructure_root@) {
                Some(found) => r matches Ok(v) && refs_view(v@) == found,
                None => r is Err,
            },
    {
        let projects_dir = join(infrastructure_root, "projects");
        let mut projects: Vec<ProjectReference> = Vec::new();
        if !fs.path_exists(projects_dir.as_str()) {
            return Ok(projects);
        }
        let entries = match fs.walk_dir(projects_dir.as_str(), 100) {
            Ok(e) => e,
            Err(e) => {
                return Err(e);
            },
        };
        let ghost all = descendants_spec(fs@, projects_dir@, 100);
        let mut i: usize = 0;
        while i < entries.len()
            invariant
                0 <= i <= entries.len(),
                entries@.map_values(|s: String| s@) == all,
                all == descendants_spec(fs@, projects_dir@, 100),
                projects_dir@ == join_spec(infrastructure_root@, "projects"@),
                fs_has(fs@, projects_dir@),
                fs_is_dir(fs@, projects_dir@),
                all_found_projects(fs@, projects_dir@, infrastructure_root@, projects@),
                refs_view(projects@) == found_projects(fs@, infrastructure_root@, all.take(i as int)),
                forall|j: int| 0 <= j < i ==> !project_without_kind(fs@, #[trigger] all[j]),
            decreases entries.len() - i,
        {
            let path = entries[i].as_str();
            proof {
                assert(all[i as int] == path@);
                assert(all.contains(path@));
                assert(all.take(i + 1).drop_last() =~= all.take(i as int));
                assert(all.take(i + 1).last() == path@);
            }
            if fs.is_file(path) {
                let name = file_name(path);
                if str_eq(name.as_str(), ".pmp.project.yaml") {
                    let project_dir = parent(path);
                    match ProjectResource::from_file(fs, path) {
                        Ok(resource) => {
                            let kind = match Self::get_project_kind(fs, warnings, project_dir.as_str()) {
                                Ok(k) => k,
                                Err(e) => {
                                    assert(project_without_kind(fs@, all[i as int]));
                                    return Err(e);
                                },
                            };
                            let relative_path = match strip_prefix(
                                project_dir.as_str(),
                                infrastructure_root,
                            ) {
                                Some(rel) => rel,
                                None => project_dir.clone(),
                            };
                            let ghost before = projects@;
                            let ghost entry = (resource.metadata.name@, kind@, relative_path@);
                            assert(entry == (resource.metadata.name@, kind@, relative_dir(path@, infrastructure_root@)));
                            projects.push(
                                ProjectReference {
                                    name: resource.metadata.name,
                                    kind,
                                    path: relative_path,
                                },
                            );
                            proof {
                                assert forall|x: int|
                                    #![trigger projects@[x]]
                                    0 <= x < projects@.len() implies exists|k: int|
                                    0 <= k < all.len() && describes_project(
                                        fs@,
                                        #[trigger] all[k],
                                        infrastructure_root@,
                                        projects@[x],
                                    ) by {
                                    if x < before.len() {
                                        assert(projects@[x] == before[x]);
                                    } else {
                                        assert(all[i as int] == path@);
                                        assert(describes_project(
                                            fs@,
                                            all[i as int],
                                            infrastructure_root@,
                                            projects@[x],
                                        ));
                                    }
                                }
                                assert(refs_view(projects@) =~= refs_view(before).push(entry));
                            }
                        },
                        Err(e) => {
                            let mut w = "Failed to load project from ".to_owned();
                            w.append(path);
                            w.append(": ");
                            w.append(e.as_str());
                            warnings.push(w);
                        },
                    }
                }
            }
            i = i + 1;
        }
        assert(all.take(entries.len() as int) =~= all);
        Ok(projects)
    }
}

} // verus!
