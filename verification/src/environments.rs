//! Every environment of every project of an infrastructure, as the commands
//! that look across projects read them: names, directory and the keys of the
//! environments each one depends on.

use vstd::prelude::*;
use crate::dependency_graph::{dependency_keys, environment_at, node_key};
use crate::fs::{children_spec, fs_is_dir, MemoryFileSystem};
use crate::paths::{join, join_spec};
use crate::resources::{deps_view, strings_view, DependencyView, EnvironmentResource, ProjectReference};
use crate::text::{concat3, views_of};

verus! {

broadcast use vstd::string::group_string_axioms;

/// One environment of a project.
pub struct EnvironmentInfo {
    /// The project's name.
    pub name: String,
    /// The environment's name.
    pub environment: String,
    /// The environment's directory.
    pub path: String,
    /// The keys (`project:environment`) of the environments it depends on.
    pub dependencies: Vec<String>,
}

/// An environment as plain values: project, environment, directory and
/// dependency keys.
pub type InfoView = (Seq<char>, Seq<char>, Seq<char>, Seq<Seq<char>>);

impl View for EnvironmentInfo {
    type V = InfoView;

    open spec fn view(&self) -> InfoView {
        (self.name@, self.environment@, self.path@, views_of(self.dependencies@))
    }
}

/// The plain values of a list of environments.
pub open spec fn infos_view(s: Seq<EnvironmentInfo>) -> Seq<InfoView> {
    s.map_values(|i: EnvironmentInfo| i@)
}

/// The key of an environment: `project:environment`.
pub open spec fn info_key(i: InfoView) -> Seq<char> {
    node_key(i.0, i.1)
}

/// What the directory `dir` of `v` holds, when it holds an environment.
pub open spec fn info_at(v: Seq<(Seq<char>, Option<Seq<char>>)>, dir: Seq<char>) -> Option<InfoView> {
    match environment_at(v, dir) {
        Some(e) => Some((e.2, e.3, dir, dependency_keys(e.4))),
        None => None,
    }
}

/// The environments held by the directories `ch`, in order.
pub open spec fn infos_in(v: Seq<(Seq<char>, Option<Seq<char>>)>, ch: Seq<Seq<char>>) -> Seq<InfoView>
    decreases ch.len(),
{
    if ch.len() == 0 {
        Seq::empty()
    } else {
        infos_in(v, ch.drop_last()) + match info_at(v, ch.last()) {
            Some(i) => seq![i],
            None => Seq::empty(),
        }
    }
}

/// The environments directory of the project `r` of the infrastructure at `root`.
pub open spec fn environments_dir(root: Seq<char>, r: ProjectReference) -> Seq<char> {
    join_spec(join_spec(root, r.path@), "environments"@)
}

/// The environments of the project `r`: those its environments directory
/// holds, in file system order (none when it is not a directory).
pub open spec fn infos_of(v: Seq<(Seq<char>, Option<Seq<char>>)>, root: Seq<char>, r: ProjectReference) -> Seq<
    InfoView,
> {
    if fs_is_dir(v, environments_dir(root, r)) {
        infos_in(v, children_spec(v, environments_dir(root, r)))
    } else {
        Seq::empty()
    }
}

/// The environments of the projects `refs`, project after project.
pub open spec fn all_infos(v: Seq<(Seq<char>, Option<Seq<char>>)>, root: Seq<char>, refs: Seq<ProjectReference>) -> Seq<
    InfoView,
>
    decreases refs.len(),
{
    if refs.len() == 0 {
        Seq::empty()
    } else {
        all_infos(v, root, refs.drop_last()) + infos_of(v, root, refs.last())
    }
}

/// The environments that the directory `d` of `v` holds (none when it is
/// not a directory).
pub open spec fn dir_infos(v: Seq<(Seq<char>, Option<Seq<char>>)>, d: Seq<char>) -> Seq<InfoView> {
    if fs_is_dir(v, d) {
        infos_in(v, children_spec(v, d))
    } else {
        Seq::empty()
    }
}

/// The environments of the projects `found`, each as name, kind and path,
/// of the infrastructure at `root`, project after project.
pub open spec fn found_infos(
    v: Seq<(Seq<char>, Option<Seq<char>>)>,
    root: Seq<char>,
    found: Seq<(Seq<char>, Seq<char>, Seq<char>)>,
) -> Seq<InfoView>
    decreases found.len(),
{
    if found.len() == 0 {
        Seq::empty()
    } else {
        found_infos(v, root, found.drop_last()) + dir_infos(
            v,
            join_spec(join_spec(root, found.last().2), "environments"@),
        )
    }
}

/// The environments of projects depend only on the projects' plain values.
pub proof fn lemma_found_infos(v: Seq<(Seq<char>, Option<Seq<char>>)>, root: Seq<char>, refs: Seq<ProjectReference>)
    ensures
        all_infos(v, root, refs) == found_infos(v, root, crate::discovery::refs_view(refs)),
    decreases refs.len(),
{
    if refs.len() > 0 {
        lemma_found_infos(v, root, refs.drop_last());
        assert(crate::discovery::refs_view(refs).drop_last() =~= crate::discovery::refs_view(refs.drop_last()));
    }
}

/// The dependency keys of two lists one after the other are those of the
/// first, then those of the second.
pub proof fn lemma_dependency_keys_concat(a: Seq<DependencyView>, b: Seq<DependencyView>)
    ensures
        dependency_keys(a + b) == dependency_keys(a) + dependency_keys(b),
    decreases a.len(),
{
    if a.len() == 0 {
        assert(a + b =~= b);
    } else {
        lemma_dependency_keys_concat(a.drop_first(), b);
        assert((a + b).drop_first() =~= a.drop_first() + b);
        assert((a + b)[0] == a[0]);
    }
}

/// The keys of the environments that `env` depends on, in order.
pub fn dependency_key_list(env: &EnvironmentResource) -> (r: Vec<String>)
    ensures
        views_of(r@) == dependency_keys(deps_view(env.spec.dependencies@)),
{
    let deps = &env.spec.dependencies;
    let ghost dv = deps_view(deps@);
    let mut out: Vec<String> = Vec::new();
    let mut i: usize = 0;
    assert(dv.take(0) =~= Seq::<DependencyView>::empty());
    while i < deps.len()
        invariant
            0 <= i <= deps.len(),
            dv == deps_view(deps@),
            views_of(out@) == dependency_keys(dv.take(i as int)),
        decreases deps.len() - i,
    {
        let d = &deps[i];
        let envs = &d.project.environments;
        let ghost before = views_of(out@);
        let mut j: usize = 0;
        while j < envs.len()
            invariant
                0 <= j <= envs.len(),
                views_of(out@).len() == before.len() + j,
                views_of(out@).take(before.len() as int) == before,
                forall|k: int|
                    0 <= k < j ==> #[trigger] views_of(out@)[before.len() + k] == node_key(
                        d.project.name@,
                        envs@[k]@,
                    ),
            decreases envs.len() - j,
        {
            let key = concat3(d.project.name.as_str(), ":", envs[j].as_str());
            let ghost o0 = views_of(out@);
            out.push(key);
            assert(views_of(out@) =~= o0.push(key@));
            j = j + 1;
        }
        proof {
            let s1 = seq![dv[i as int]];
            assert(s1[0] == dv[i as int]);
            assert(s1.drop_first() =~= Seq::<DependencyView>::empty());
            assert(dv[i as int].0 == d.project.name@);
            assert(dv[i as int].1 == strings_view(envs@));
            let dk = dependency_keys(s1);
            assert(dependency_keys(s1.drop_first()).len() == 0);
            assert(strings_view(envs@).len() == envs@.len());
            assert(dk.len() == envs@.len());
            assert(views_of(out@) =~= before + dk) by {
                assert forall|k: int| 0 <= k < dk.len() implies views_of(out@)[before.len() + k]
                    == dk[k] by {
                    assert(strings_view(envs@)[k] == envs@[k]@);
                }
            }
            assert(dv.take(i + 1) =~= dv.take(i as int) + s1);
            lemma_dependency_keys_concat(dv.take(i as int), s1);
        }
        i = i + 1;
    }
    assert(dv.take(deps.len() as int) =~= dv);
    out
}

/// Every environment of every project of `project_refs`, the projects taken
/// in order and each project's environments in file system order: the
/// directories inside its `environments` directory that hold an environment
/// file that loads. Other directories are passed over.
pub fn scan_environments(
    fs: &MemoryFileSystem,
    infrastructure_root: &str,
    project_refs: &[ProjectReference],
) -> (r: Vec<EnvironmentInfo>)
    ensures
        infos_view(r@) == all_infos(fs@, infrastructure_root@, project_refs@),
{
    let ghost root = infrastructure_root@;
    let ghost refs = project_refs@;
    let mut out: Vec<EnvironmentInfo> = Vec::new();
    let mut i: usize = 0;
    assert(infos_view(out@) =~= Seq::<InfoView>::empty());
    assert(refs.take(0) =~= Seq::<ProjectReference>::empty());
    while i < project_refs.len()
        invariant
            0 <= i <= project_refs.len(),
            root == infrastructure_root@,
            refs == project_refs@,
            infos_view(out@) == all_infos(fs@, root, refs.take(i as int)),
        decreases project_refs.len() - i,
    {
        let project_path = join(infrastructure_root, project_refs[i].path.as_str());
        let environments_dir_path = join(project_path.as_str(), "environments");
        let ghost dir = environments_dir_path@;
        let ghost head = infos_view(out@);
        assert(dir == environments_dir(root, refs[i as int]));
        proof {
            assert(refs.take(i + 1).drop_last() =~= refs.take(i as int));
            assert(refs.take(i + 1).last() == refs[i as int]);
        }
        match fs.read_dir(environments_dir_path.as_str()) {
            Ok(entries) => {
                let ghost ch = children_spec(fs@, dir);
                let mut j: usize = 0;
                assert(ch.take(0) =~= Seq::<Seq<char>>::empty());
                assert(head + infos_in(fs@, ch.take(0)) =~= head);
                while j < entries.len()
                    invariant
                        0 <= j <= entries.len(),
                        ch == children_spec(fs@, dir),
                        entries@.map_values(|s: String| s@) == ch,
                        infos_view(out@) == head + infos_in(fs@, ch.take(j as int)),
                    decreases entries.len() - j,
                {
                    let env_path = entries[j].as_str();
                    assert(entries@.map_values(|s: String| s@)[j as int] == env_path@);
                    assert(ch.take(j + 1).drop_last() =~= ch.take(j as int));
                    assert(ch.take(j + 1).last() == env_path@);
                    let env_file = join(env_path, ".pmp.environment.yaml");
                    let ghost before = infos_view(out@);
                    let mut added = false;
                    if fs.path_exists(env_file.as_str()) {
                        match EnvironmentResource::from_file(fs, env_file.as_str()) {
                            Ok(resource) => {
                                let deps = dependency_key_list(&resource);
                                let info = EnvironmentInfo {
                                    name: resource.metadata.name,
                                    environment: resource.metadata.environment_name,
                                    path: env_path.to_owned(),
                                    dependencies: deps,
                                };
                                let ghost iv = info@;
                                out.push(info);
                                added = true;
                                assert(info_at(fs@, env_path@) == Some(iv));
                                assert(infos_view(out@) =~= before.push(iv));
                            },
                            Err(_) => {},
                        }
                    }
                    proof {
                        if !added {
                            assert(info_at(fs@, env_path@) is None);
                        }
                        assert(infos_view(out@) =~= head + infos_in(fs@, ch.take(j + 1)));
                    }
                    j = j + 1;
                }
                assert(ch.take(entries@.len() as int) =~= ch);
            },
            Err(_) => {
                assert(head + infos_of(fs@, root, refs[i as int]) =~= head);
            },
        }
        i = i + 1;
    }
    assert(refs.take(refs.len() as int) =~= refs);
    out
}

} // verus!
