//! The `clone` command: a new project made from an existing one, with the
//! environments chosen copied over and renamed.

use vstd::prelude::*;
use crate::discovery::{all_found_projects, infrastructure_at, is_nearest_collection, no_collection_above, CollectionDiscovery};
use crate::fs::{children_spec, fs_has, fs_is_dir, fs_is_file, MemoryFileSystem};
use crate::output::{emit, lines_view, LineView, OutputLine};
use crate::paths::{file_name, file_name_spec, join, join_spec, parent, parent_spec, strip_prefix, strip_prefix_spec};
use crate::resources::{environment_spec, infrastructure_view, ProjectReference};
use crate::text::{concat, contains_str, joined, lowercase, replace_spec, replace_str, str_eq, to_lowercase, views_of};
use crate::yaml::{emit_yaml_checked, metadata_renamed, parse_yaml, set_metadata_name, yaml_document, yaml_text};

verus! {

broadcast use vstd::string::group_string_axioms;

/// The `clone` command.
pub struct CloneCommand;

/// The names of the directories among `ch` that hold an environment file.
pub open spec fn env_dir_names(v: Seq<(Seq<char>, Option<Seq<char>>)>, ch: Seq<Seq<char>>) -> Seq<Seq<char>>
    decreases ch.len(),
{
    if ch.len() == 0 {
        Seq::empty()
    } else {
        env_dir_names(v, ch.drop_last()) + if fs_has(v, join_spec(ch.last(), ".pmp.environment.yaml"@)) {
            seq![file_name_spec(ch.last())]
        } else {
            Seq::empty()
        }
    }
}

/// What cloning turns the text `text` of an environment file into, for the
/// new project `name`: when it is an environment document, the document with
/// `metadata.name` set to `name`, as `serde_yaml` writes it; otherwise the
/// text as it is.
pub open spec fn cloned_env_text(text: Seq<char>, name: Seq<char>, out: Seq<char>) -> bool {
    match yaml_document(text) {
        Ok(doc) => if environment_spec(doc) is Some {
            exists|d: crate::yaml::YamlValue| #[trigger] metadata_renamed(doc, d, name) && out == yaml_text(d)
        } else {
            out == text
        },
        Err(_) => out == text,
    }
}

/// Whether `plan` holds, for each file among `files` (below `source`), the
/// path it is copied to below `target` and what is written there.
pub open spec fn copy_plan(
    v: Seq<(Seq<char>, Option<Seq<char>>)>,
    files: Seq<Seq<char>>,
    source: Seq<char>,
    target: Seq<char>,
    name: Seq<char>,
    plan: Seq<(Seq<char>, Seq<char>)>,
) -> bool {
    &&& plan.len() == files.len()
    &&& forall|i: int|
        0 <= i < files.len() ==> {
            &&& strip_prefix_spec(#[trigger] files[i], source) matches Some(rel) && plan[i].0 == join_spec(
                target,
                rel,
            )
            &&& fs_file_text(v, files[i]) matches Some(t) && if file_name_spec(files[i])
                == ".pmp.environment.yaml"@ {
                cloned_env_text(t, name, plan[i].1)
            } else {
                plan[i].1 == t
            }
        }
}

/// Whether `p` of `v` is an environment file holding an environment
/// document: the one kind of file that a copy writes anew.
pub open spec fn environment_document_file(v: Seq<(Seq<char>, Option<Seq<char>>)>, p: Seq<char>) -> bool {
    &&& fs_is_file(v, p)
    &&& file_name_spec(p) == ".pmp.environment.yaml"@
    &&& crate::fs::fs_file(v, p) matches Some(t)
    &&& yaml_document(t) matches Ok(doc)
    &&& environment_spec(doc) is Some
}

/// The text of the file `p` of `v`.
pub open spec fn fs_file_text(v: Seq<(Seq<char>, Option<Seq<char>>)>, p: Seq<char>) -> Option<Seq<char>> {
    crate::fs::fs_file(v, p)
}

/// The files among the paths `ps`, in order.
pub open spec fn files_among(v: Seq<(Seq<char>, Option<Seq<char>>)>, ps: Seq<Seq<char>>) -> Seq<Seq<char>>
    decreases ps.len(),
{
    if ps.len() == 0 {
        Seq::empty()
    } else {
        files_among(v, ps.drop_last()) + if fs_is_file(v, ps.last()) {
            seq![ps.last()]
        } else {
            Seq::empty()
        }
    }
}

/// The message when there is no infrastructure.
pub open spec fn no_infrastructure_message() -> Seq<char> {
    "Infrastructure is required. Run 'pmp init' first."@
}

/// How a project is offered for choice.
pub open spec fn clone_option(p: ProjectReference) -> Seq<char> {
    p.name@ + " ("@ + p.kind@ + ")"@
}

/// The lines that report the cloning of each of `envs`.
pub open spec fn env_clone_lines(envs: Seq<Seq<char>>) -> Seq<LineView>
    decreases envs.len(),
{
    if envs.len() == 0 {
        Seq::empty()
    } else {
        env_clone_lines(envs.drop_last()) + seq![
            LineView::Subsection("Cloning environment: "@ + envs.last()),
            LineView::Success("Cloned environment: "@ + envs.last()),
        ]
    }
}

/// The report of a clone into `new_dir`, named `new_name`, of the
/// environments `envs`.
pub open spec fn clone_report(new_dir: Seq<char>, new_name: Seq<char>, envs: Seq<Seq<char>>) -> Seq<LineView> {
    seq![LineView::Success("Created project identifier: "@ + new_name)] + env_clone_lines(envs) + seq![
        LineView::Blank,
        LineView::Success("Project cloned successfully!"@),
        LineView::KeyValue("Location"@, new_dir),
        LineView::Blank,
        LineView::Info("Next steps:"@),
        LineView::Dimmed("1. Review and customize the cloned project configuration"@),
        LineView::Dimmed("2. Update any environment-specific settings"@),
        LineView::Dimmed("3. Initialize: cd "@ + new_dir + " && tofu init"@),
    ]
}

/// The copies of a plan, as pairs of path and text.
pub open spec fn copy_pairs(plan: Seq<(String, String)>) -> Seq<(Seq<char>, Seq<char>)> {
    plan.map_values(|e: (String, String)| (e.0@, e.1@))
}

/// Whether writing the file at place `i` of the copies `ps` onto `v0` is
/// blocked: its path is empty, or a directory above it is a file (one of
/// `v0`, or one written before it), or the path itself is a directory (one
/// of `v0`, or one made for it or for a file before it).
pub open spec fn copy_blocked(v0: Seq<(Seq<char>, Option<Seq<char>>)>, ps: Seq<(Seq<char>, Seq<char>)>, i: int) -> bool {
    let p = ps[i].0;
    ||| p.len() == 0
    ||| exists|q: Seq<char>|
        #[trigger] crate::fs::dir_prefixes(parent_spec(p)).contains(q) && (fs_is_file(v0, q) || exists|j: int|
            0 <= j < i && ps[j].0 == q)
    ||| fs_is_dir(v0, p)
    ||| exists|j: int| 0 <= j <= i && crate::fs::dir_prefixes(parent_spec(#[trigger] ps[j].0)).contains(p)
}

/// Every path below `dir` lies inside it.
proof fn all_descendants_inside(v: Seq<(Seq<char>, Option<Seq<char>>)>, dir: Seq<char>, p: Seq<char>)
    requires
        crate::fs::descendants_spec(v, dir, 10).contains(p),
    ensures
        strip_prefix_spec(p, dir) is Some,
{
    let f = |e: (Seq<char>, Option<Seq<char>>)|
        if crate::fs::within_depth(e.0, dir, 10) {
            Some(e.0)
        } else {
            None
        };
    assert(crate::fs::descendants_spec(v, dir, 10) == v.filter_map(f));
    v.lemma_filter_map_contains(f, p);
    let t = choose|t: (Seq<char>, Option<Seq<char>>)| #[trigger] v.contains(t) && f(t) == Some(p);
    assert(crate::fs::within_depth(t.0, dir, 10));
}

impl CloneCommand {
    /// The environments of the project in `project_dir` that can be cloned:
    /// the directories in its `environments` directory that hold an
    /// environment file, in file system order (none when there is no such
    /// directory).
    pub fn source_environments(fs: &MemoryFileSystem, project_dir: &str) -> (r: Result<Vec<String>, String>)
        ensures
            !fs_has(fs@, join_spec(project_dir@, "environments"@)) ==> (r matches Ok(e) && e@.len() == 0),
            fs_has(fs@, join_spec(project_dir@, "environments"@)) ==> (r is Ok <==> fs_is_dir(
                fs@,
                join_spec(project_dir@, "environments"@),
            )),
            r matches Ok(e) ==> fs_has(fs@, join_spec(project_dir@, "environments"@)) ==> views_of(e@)
                == env_dir_names(fs@, children_spec(fs@, join_spec(project_dir@, "environments"@))),
    {
        let dir = join(project_dir, "environments");
        let mut out: Vec<String> = Vec::new();
        assert(views_of(out@) =~= Seq::<Seq<char>>::empty());
        if !fs.path_exists(dir.as_str()) {
            return Ok(out);
        }
        let entries = match fs.read_dir(dir.as_str()) {
            Ok(e) => e,
            Err(e) => {
                return Err(e);
            },
        };
        let ghost ch = children_spec(fs@, dir@);
        let mut j: usize = 0;
        assert(ch.take(0) =~= Seq::<Seq<char>>::empty());
        while j < entries.len()
            invariant
                0 <= j <= entries.len(),
                ch == children_spec(fs@, dir@),
                entries@.map_values(|s: String| s@) == ch,
                views_of(out@) == env_dir_names(fs@, ch.take(j as int)),
            decreases entries.len() - j,
        {
            let env_path = entries[j].as_str();
            assert(entries@.map_values(|s: String| s@)[j as int] == env_path@);
            assert(ch.take(j + 1).drop_last() =~= ch.take(j as int));
            assert(ch.take(j + 1).last() == env_path@);
            let env_file = join(env_path, ".pmp.environment.yaml");
            if fs.path_exists(env_file.as_str()) {
                let ghost before = out@;
                let name = file_name(env_path);
                out.push(name);
                assert(views_of(out@) =~= views_of(before).push(file_name_spec(env_path@)));
            }
            j = j + 1;
        }
        assert(ch.take(entries@.len() as int) =~= ch);
        Ok(out)
    }

    /// The text of a cloned environment file: an environment document gets
    /// `new_name` as its `metadata.name` and is written anew; other text
    /// stays as it is.
    pub fn clone_environment_text(text: &str, new_name: &str) -> (r: Result<String, String>)
        ensures
            r matches Ok(out) ==> cloned_env_text(text@, new_name@, out@),
            !(yaml_document(text@) matches Ok(doc) && environment_spec(doc) is Some) ==> (r matches Ok(out)
                && out@ == text@),
    {
        match parse_yaml(text) {
            Ok(doc) => {
                if crate::resources::EnvironmentResource::from_yaml(&doc).is_ok() {
                    let renamed = set_metadata_name(doc, new_name);
                    match emit_yaml_checked(&renamed) {
                        Ok(out) => Ok(out),
                        Err(e) => Err(e),
                    }
                } else {
                    Ok(text.to_owned())
                }
            },
            Err(_) => Ok(text.to_owned()),
        }
    }

    /// What copying the directory `source` to `target` writes, file by
    /// file: the files at most ten levels below `source`, in file system
    /// order, each with the path it goes to and its text (environment files
    /// renamed for `new_name`).
    pub fn plan_copies(fs: &MemoryFileSystem, source: &str, target: &str, new_name: &str) -> (r: Result<
        Vec<(String, String)>,
        String,
    >)
        ensures
            !fs_is_dir(fs@, source@) ==> r is Err,
            r is Err ==> !fs_is_dir(fs@, source@) || exists|i: int|
                0 <= i < crate::fs::descendants_spec(fs@, source@, 10).len() && environment_document_file(
                    fs@,
                    #[trigger] crate::fs::descendants_spec(fs@, source@, 10)[i],
                ),
            r matches Ok(plan) ==> copy_plan(
                fs@,
                files_among(fs@, crate::fs::descendants_spec(fs@, source@, 10)),
                source@,
                target@,
                new_name@,
                plan@.map_values(|e: (String, String)| (e.0@, e.1@)),
            ),
    {
        let entries = match fs.walk_dir(source, 10) {
            Ok(e) => e,
            Err(e) => {
                return Err(e);
            },
        };
        let ghost all = crate::fs::descendants_spec(fs@, source@, 10);
        let mut plan: Vec<(String, String)> = Vec::new();
        let mut i: usize = 0;
        assert(all.take(0) =~= Seq::<Seq<char>>::empty());
        while i < entries.len()
            invariant
                0 <= i <= entries.len(),
                entries@.map_values(|s: String| s@) == all,
                all == crate::fs::descendants_spec(fs@, source@, 10),
                copy_plan(
                    fs@,
                    files_among(fs@, all.take(i as int)),
                    source@,
                    target@,
                    new_name@,
                    plan@.map_values(|e: (String, String)| (e.0@, e.1@)),
                ),
            decreases entries.len() - i,
        {
            let entry = entries[i].as_str();
            assert(entries@.map_values(|s: String| s@)[i as int] == entry@);
            assert(all.take(i + 1).drop_last() =~= all.take(i as int));
            assert(all.take(i + 1).last() == entry@);
            if fs.is_file(entry) {
                proof {
                    assert(all.contains(entry@));
                    all_descendants_inside(fs@, source@, entry@);
                }
                let rel = match strip_prefix(entry, source) {
                    Some(r) => r,
                    None => {
                        return Err("Failed to get relative path".to_owned());
                    },
                };
                let target_file = join(target, rel.as_str());
                let content = match fs.read_to_string(entry) {
                    Ok(c) => c,
                    Err(e) => {
                        return Err(e);
                    },
                };
                let name = file_name(entry);
                let text = if str_eq(name.as_str(), ".pmp.environment.yaml") {
                    match Self::clone_environment_text(content.as_str(), new_name) {
                        Ok(t) => t,
                        Err(e) => {
                            assert(environment_document_file(fs@, all[i as int]));
                            return Err(e);
                        },
                    }
                } else {
                    content
                };
                let ghost before = plan@.map_values(|e: (String, String)| (e.0@, e.1@));
                let ghost files0 = files_among(fs@, all.take(i as int));
                let ghost pair = (target_file@, text@);
                plan.push((target_file, text));
                proof {
                    assert(plan@.map_values(|e: (String, String)| (e.0@, e.1@)) =~= before.push(pair));
                    let files1 = files_among(fs@, all.take(i + 1));
                    assert(files1 =~= files0.push(entry@));
                    assert forall|k: int| 0 <= k < files1.len() implies {
                        &&& strip_prefix_spec(#[trigger] files1[k], source@) matches Some(rl) && before.push(pair)[k].0
                            == join_spec(target@, rl)
                        &&& fs_file_text(fs@, files1[k]) matches Some(t) && if file_name_spec(files1[k])
                            == ".pmp.environment.yaml"@ {
                            cloned_env_text(t, new_name@, before.push(pair)[k].1)
                        } else {
                            before.push(pair)[k].1 == t
                        }
                    } by {
                        if k < files0.len() {
                            assert(files1[k] == files0[k]);
                            assert(before.push(pair)[k] == before[k]);
                        }
                    }
                }
            }
            i = i + 1;
        }
        assert(all.take(entries@.len() as int) =~= all);
        Ok(plan)
    }

    /// Writes each file of `plan`, making the directory that holds it.
    /// When no path occurs twice, each file then holds its text.
    pub fn apply_copies(fs: &mut MemoryFileSystem, plan: &Vec<(String, String)>) -> (r: Result<(), String>)
        ensures
            r is Ok ==> plan@.map_values(|e: (String, String)| e.0@).no_duplicates() ==> forall|i: int|
                0 <= i < plan@.len() ==> crate::fs::fs_file(final(fs)@, #[trigger] plan@[i].0@) == Some(
                    plan@[i].1@,
                ),
            forall|x: Seq<char>| fs_has(old(fs)@, x) ==> fs_has(final(fs)@, x),
            r is Err ==> exists|i: int|
                0 <= i < plan@.len() && #[trigger] copy_blocked(old(fs)@, copy_pairs(plan@), i),
    {
        let ghost paths = plan@.map_values(|e: (String, String)| e.0@);
        let ghost pv = copy_pairs(plan@);
        let ghost v0 = fs@;
        let mut i: usize = 0;
        while i < plan.len()
            invariant
                0 <= i <= plan.len(),
                paths == plan@.map_values(|e: (String, String)| e.0@),
                pv == copy_pairs(plan@),
                forall|x: Seq<char>|
                    #[trigger] fs_is_file(fs@, x) ==> fs_is_file(v0, x) || exists|j: int| 0 <= j < i && pv[j].0 == x,
                forall|x: Seq<char>|
                    #[trigger] fs_is_dir(fs@, x) ==> fs_is_dir(v0, x) || exists|j: int|
                        0 <= j < i && crate::fs::dir_prefixes(parent_spec(#[trigger] pv[j].0)).contains(x),
                v0 == old(fs)@,
                paths.no_duplicates() ==> forall|k: int|
                    0 <= k < i ==> crate::fs::fs_file(fs@, #[trigger] plan@[k].0@) == Some(plan@[k].1@),
                forall|x: Seq<char>| fs_has(v0, x) ==> fs_has(fs@, x),
            decreases plan.len() - i,
        {
            let path = plan[i].0.as_str();
            let dir = parent(path);
            let ghost v1 = fs@;
            match fs.create_dir_all(dir.as_str()) {
                Ok(()) => {},
                Err(e) => {
                    assert(fs@ == v1);
                    assert forall|x: Seq<char>| fs_has(v0, x) implies fs_has(fs@, x) by {}
                    assert(pv[i as int].0 == path@);
                    assert(copy_blocked(v0, pv, i as int));
                    return Err(e);
                },
            }
            proof {
                assert forall|x: Seq<char>| fs_has(v1, x) implies fs_has(fs@, x) by {
                    assert(crate::fs::fs_index(fs@, x) == crate::fs::fs_index(fs@, x));
                }
                assert forall|k: int| 0 <= k < i implies crate::fs::fs_file(fs@, #[trigger] plan@[k].0@)
                    == crate::fs::fs_file(v1, plan@[k].0@) by {
                    assert(crate::fs::fs_index(fs@, plan@[k].0@) == crate::fs::fs_index(fs@, plan@[k].0@));
                }
            }
            let ghost v2 = fs@;
            match fs.write(path, plan[i].1.as_str()) {
                Ok(()) => {},
                Err(e) => {
                    assert(fs@ == v2);
                    assert forall|x: Seq<char>| fs_has(v0, x) implies fs_has(fs@, x) by {}
                    proof {
                        assert(pv[i as int].0 == path@);
                        if path@.len() > 0 && fs_is_dir(v2, path@) && !fs_is_dir(v1, path@) {
                            assert(crate::fs::dir_prefixes(parent_spec(pv[i as int].0)).contains(path@));
                        }
                        if parent_spec(path@).len() > 0 {
                            assert(crate::fs::dir_prefixes(dir@).contains(dir@));
                        }
                        assert(copy_blocked(v0, pv, i as int));
                    }
                    return Err(e);
                },
            }
            proof {
                assert forall|x: Seq<char>| fs_has(v2, x) implies fs_has(fs@, x) by {
                    assert(crate::fs::fs_index(fs@, x) == crate::fs::fs_index(fs@, x));
                    if x == path@ {
                        assert(crate::fs::fs_file(fs@, x) is Some);
                    }
                }
                assert(pv[i as int].0 == path@);
                assert forall|x: Seq<char>| #[trigger] fs_is_file(fs@, x) implies fs_is_file(v0, x) || exists|j: int|
                    0 <= j < i + 1 && pv[j].0 == x by {
                    assert(crate::fs::fs_index(fs@, x) == crate::fs::fs_index(fs@, x));
                    if x != path@ {
                        assert(fs_is_file(v2, x));
                        assert(fs_is_file(v1, x));
                    }
                }
                assert forall|x: Seq<char>| #[trigger] fs_is_dir(fs@, x) implies fs_is_dir(v0, x) || exists|j: int|
                    0 <= j < i + 1 && crate::fs::dir_prefixes(parent_spec(#[trigger] pv[j].0)).contains(x) by {
                    assert(crate::fs::fs_index(fs@, x) == crate::fs::fs_index(fs@, x));
                    if x != path@ {
                        assert(fs_is_dir(v2, x));
                        if !crate::fs::dir_prefixes(dir@).contains(x) {
                            assert(fs_is_dir(v1, x));
                        }
                    }
                }
                if paths.no_duplicates() {
                    assert forall|k: int| 0 <= k < i + 1 implies crate::fs::fs_file(fs@, #[trigger] plan@[k].0@)
                        == Some(plan@[k].1@) by {
                        if k < i {
                            assert(paths[k] != paths[i as int]);
                            assert(crate::fs::fs_index(fs@, plan@[k].0@) == crate::fs::fs_index(fs@, plan@[k].0@));
                        }
                    }
                }
            }
            i = i + 1;
        }
        Ok(())
    }
}


/// The index of the project to clone: the first whose name is `source`
/// ignoring case when it is given, else the first offered as `selected`.
pub open spec fn chosen_source(refs: Seq<ProjectReference>, source: Option<Seq<char>>, selected: Option<Seq<char>>) -> Option<int>
    decreases refs.len(),
{
    if refs.len() == 0 {
        None
    } else if (match source {
        Some(n) => lowercase(refs[0].name@) == lowercase(n),
        None => selected == Some(clone_option(refs[0])),
    }) {
        Some(0)
    } else {
        match chosen_source(refs.drop_first(), source, selected) {
            Some(k) => Some(k + 1),
            None => None,
        }
    }
}

/// `chosen_source` is none or an index of `refs`.
proof fn lemma_chosen_source(refs: Seq<ProjectReference>, source: Option<Seq<char>>, selected: Option<Seq<char>>)
    ensures
        chosen_source(refs, source, selected) matches Some(k) ==> 0 <= k < refs.len(),
    decreases refs.len(),
{
    if refs.len() > 0 {
        lemma_chosen_source(refs.drop_first(), source, selected);
    }
}

/// The environments of the project in `pdir` of `v` that can be cloned.
pub open spec fn clonable_environments(v: Seq<(Seq<char>, Option<Seq<char>>)>, pdir: Seq<char>) -> Seq<Seq<char>> {
    if fs_has(v, join_spec(pdir, "environments"@)) {
        env_dir_names(v, children_spec(v, join_spec(pdir, "environments"@)))
    } else {
        Seq::empty()
    }
}

/// The directory of the new project `name`.
pub open spec fn new_project_dir(root: Seq<char>, name: Seq<char>) -> Seq<char> {
    join_spec(join_spec(root, "projects"@), name)
}

/// What cloning does once the projects `refs` of the infrastructure at
/// `root` are known.
pub open spec fn clone_after_discovery(
    v0: Seq<(Seq<char>, Option<Seq<char>>)>,
    v1: Seq<(Seq<char>, Option<Seq<char>>)>,
    root: Seq<char>,
    refs: Seq<ProjectReference>,
    source: Option<Seq<char>>,
    new_name: Seq<char>,
    environment: Option<Seq<char>>,
    selected: Option<Seq<char>>,
    selected_envs: Seq<Seq<char>>,
    confirmed: bool,
    ls: Seq<LineView>,
    res: Result<(), String>,
) -> bool {
    if refs.len() == 0 {
        v1 == v0 && res is Ok && ls == seq![LineView::Dimmed("No projects found to clone."@)]
    } else {
        match chosen_source(refs, source, selected) {
            None => v1 == v0 && (res matches Err(e) && e@ == match source {
                Some(n) => "Project '"@ + n + "' not found"@,
                None => "Project not found"@,
            }),
            Some(k) => {
                let pdir = join_spec(root, refs[k].path@);
                let edir = join_spec(pdir, "environments"@);
                if fs_has(v0, edir) && !fs_is_dir(v0, edir) {
                    v1 == v0 && res is Err
                } else {
                    let envs = clonable_environments(v0, pdir);
                    if envs.len() == 0 {
                        v1 == v0 && (res matches Err(e) && e@ == "Source project has no environments to clone"@)
                    } else if environment matches Some(e) && !envs.contains(e) {
                        v1 == v0 && (res matches Err(m) && m@ == "Environment '"@ + environment->0
                            + "' not found in source project. Available: "@ + joined(envs, ", "@))
                    } else if environment is None && selected_envs.len() == 0 {
                        v1 == v0 && (res matches Err(m) && m@ == "No environments selected"@)
                    } else if !confirmed {
                        v1 == v0 && res is Ok && ls.len() > 0 && ls.last() == LineView::Dimmed("Clone cancelled."@)
                    } else if fs_has(v0, new_project_dir(root, new_name)) {
                        v1 == v0 && (res matches Err(m) && m@ == "Project '"@ + new_name + "' already exists"@)
                    } else {
                        &&& forall|x: Seq<char>| fs_has(v0, x) ==> fs_has(v1, x)
                        &&& res is Ok ==> fs_has(v1, new_project_dir(root, new_name))
                    }
                }
            },
        }
    }
}

/// Whether cloning, run in `current_dir` of `v0`, showed `ls`, ended with
/// `res` and left `v1`.
pub open spec fn clone_done(
    v0: Seq<(Seq<char>, Option<Seq<char>>)>,
    v1: Seq<(Seq<char>, Option<Seq<char>>)>,
    current_dir: Seq<char>,
    source: Option<Seq<char>>,
    new_name: Seq<char>,
    environment: Option<Seq<char>>,
    selected: Option<Seq<char>>,
    selected_envs: Seq<Seq<char>>,
    confirmed: bool,
    ls: Seq<LineView>,
    res: Result<(), String>,
) -> bool {
    &&& ls.len() >= 1
    &&& ls[0] == LineView::Section("Clone Project"@)
    &&& if no_collection_above(v0, current_dir) {
        v1 == v0 && ls.len() == 1 && (res matches Err(e) && e@ == no_infrastructure_message())
    } else {
        exists|root: Seq<char>|
            #[trigger] is_nearest_collection(v0, current_dir, root) && (infrastructure_at(v0, root) matches Some(
                iv,
            ) && ls.len() >= 3 && ls[1] == LineView::KeyValue("Infrastructure"@, iv.0) && ls[2]
                == LineView::Blank && {
                ||| crate::discovery::discovery(v0, root) is None && v1 == v0 && ls.len() == 3 && res is Err
                ||| exists|refs: Seq<ProjectReference>|
                    #[trigger] all_found_projects(v0, join_spec(root, "projects"@), root, refs)
                        && crate::discovery::discovery(v0, root) == Some(crate::discovery::refs_view(refs)) && clone_after_discovery(
                        v0,
                        v1,
                        root,
                        refs,
                        source,
                        new_name,
                        environment,
                        selected,
                        selected_envs,
                        confirmed,
                        ls.skip(3),
                        res,
                    )
            })
    }
}

/// The view of an optional text.
pub open spec fn opt_text(o: Option<&str>) -> Option<Seq<char>> {
    match o {
        Some(s) => Some(s@),
        None => None,
    }
}

impl CloneCommand {
    /// The index of the project to clone among `refs`.
    fn find_source(refs: &Vec<ProjectReference>, source: Option<&str>, selected: Option<&str>) -> (r: Option<usize>)
        ensures
            match r {
                Some(k) => chosen_source(refs@, opt_text(source), opt_text(selected)) == Some(k as int),
                None => chosen_source(refs@, opt_text(source), opt_text(selected)) is None,
            },
    {
        let wanted = match source {
            Some(n) => Some(to_lowercase(n)),
            None => None,
        };
        let mut i: usize = 0;
        assert(refs@.skip(0) =~= refs@);
        while i < refs.len()
            invariant
                0 <= i <= refs.len(),
                match source {
                    Some(n) => wanted matches Some(w) && w@ == lowercase(n@),
                    None => wanted is None,
                },
                chosen_source(refs@, opt_text(source), opt_text(selected)) == match chosen_source(
                    refs@.skip(i as int),
                    opt_text(source),
                    opt_text(selected),
                ) {
                    Some(k) => Some(k + i),
                    None => None,
                },
            decreases refs.len() - i,
        {
            let p = &refs[i];
            assert(refs@.skip(i as int)[0] == *p);
            assert(refs@.skip(i as int).drop_first() =~= refs@.skip(i + 1));
            let hit = match &wanted {
                Some(w) => str_eq(to_lowercase(p.name.as_str()).as_str(), w.as_str()),
                None => match selected {
                    Some(sel) => {
                        let mut label = p.name.clone();
                        label.append(" (");
                        label.append(p.kind.as_str());
                        label.append(")");
                        str_eq(label.as_str(), sel)
                    },
                    None => false,
                },
            };
            if hit {
                return Some(i);
            }
            i = i + 1;
        }
        assert(refs@.skip(refs.len() as int) =~= Seq::<ProjectReference>::empty());
        None
    }

    /// Clones a project of the infrastructure at or above `current_dir`
    /// into the new project `new_name`: the project `source_project` (its
    /// name, ignoring case), or else the one the user picked from the
    /// offered choices (`selected_project`); the environment
    /// `environment`, or else those the user picked
    /// (`selected_environments`); once `confirmed`. The project file is
    /// copied with its name replaced; each environment's files are copied,
    /// environment files renamed for the new project. Problems with single
    /// project files go to `warnings`.
    pub fn execute(
        fs: &mut MemoryFileSystem,
        warnings: &mut Vec<String>,
        current_dir: &str,
        source_project: Option<&str>,
        new_name: &str,
        environment: Option<&str>,
        selected_project: Option<&str>,
        selected_environments: &Vec<String>,
        confirmed: bool,
    ) -> (r: (Vec<OutputLine>, Result<(), String>))
        ensures
            clone_done(
                old(fs)@,
                final(fs)@,
                current_dir@,
                opt_text(source_project),
                new_name@,
                opt_text(environment),
                opt_text(selected_project),
                views_of(selected_environments@),
                confirmed,
                lines_view(r.0@),
                r.1,
            ),
    {
        let mut out: Vec<OutputLine> = Vec::new();
        assert(lines_view(out@) =~= Seq::<LineView>::empty());
        emit(&mut out, OutputLine::Section("Clone Project".to_owned()));
        assert(lines_view(out@) =~= seq![LineView::Section("Clone Project"@)]);
        let ghost v0 = fs@;
        let found = match CollectionDiscovery::find_collection_in_path(&*fs, current_dir) {
            Ok(f) => f,
            Err(e) => {
                return (out, Err(e));
            },
        };
        let (infrastructure, root) = match found {
            Some(x) => x,
            None => {
                proof {
                    reveal_strlit("Infrastructure is required. Run 'pmp init' first.");
                }
                return (out, Err("Infrastructure is required. Run 'pmp init' first.".to_owned()));
            },
        };
        proof {
            crate::discovery::lemma_nearest_excludes_none(v0, current_dir@, root@);
        }
        let iname = infrastructure.metadata.name.clone();
        let ghost nm = iname@;
        assert(nm == infrastructure_view(infrastructure).0);
        emit(&mut out, OutputLine::KeyValue("Infrastructure".to_owned(), iname));
        emit(&mut out, OutputLine::Blank);
        let ghost head = lines_view(out@);
        assert(head =~= seq![
            LineView::Section("Clone Project"@),
            LineView::KeyValue("Infrastructure"@, nm),
            LineView::Blank,
        ]);
        assert(infrastructure_at(v0, root@) == Some(infrastructure_view(infrastructure)));
        assert(is_nearest_collection(v0, current_dir@, root@));
        let projects = match CollectionDiscovery::discover_projects(&*fs, warnings, root.as_str()) {
            Ok(p) => p,
            Err(e) => {
                return (out, Err(e));
            },
        };
        assert(all_found_projects(v0, join_spec(root@, "projects"@), root@, projects@));
        let (mut rest, res) = Self::clone_from(
            fs,
            root.as_str(),
            &projects,
            source_project,
            new_name,
            environment,
            selected_project,
            selected_environments,
            confirmed,
        );
        let ghost rv = lines_view(rest@);
        out.append(&mut rest);
        proof {
            assert(lines_view(out@) =~= head + rv);
            assert(lines_view(out@).skip(3) =~= rv);
            assert(lines_view(out@)[0] == head[0]);
            assert(lines_view(out@)[1] == head[1]);
            assert(lines_view(out@)[2] == head[2]);
        }
        (out, res)
    }

    /// What cloning does once the projects `refs` of the infrastructure at
    /// `root` are known.
    fn clone_from(
        fs: &mut MemoryFileSystem,
        root: &str,
        refs: &Vec<ProjectReference>,
        source_project: Option<&str>,
        new_name: &str,
        environment: Option<&str>,
        selected_project: Option<&str>,
        selected_environments: &Vec<String>,
        confirmed: bool,
    ) -> (r: (Vec<OutputLine>, Result<(), String>))
        ensures
            clone_after_discovery(
                old(fs)@,
                final(fs)@,
                root@,
                refs@,
                opt_text(source_project),
                new_name@,
                opt_text(environment),
                opt_text(selected_project),
                views_of(selected_environments@),
                confirmed,
                lines_view(r.0@),
                r.1,
            ),
    {
        let mut out: Vec<OutputLine> = Vec::new();
        assert(lines_view(out@) =~= Seq::<LineView>::empty());
        let ghost v0 = fs@;
        if refs.len() == 0 {
            emit(&mut out, OutputLine::Dimmed("No projects found to clone.".to_owned()));
            assert(lines_view(out@) =~= seq![LineView::Dimmed("No projects found to clone."@)]);
            return (out, Ok(()));
        }
        proof {
            lemma_chosen_source(refs@, opt_text(source_project), opt_text(selected_project));
        }
        let k = match Self::find_source(refs, source_project, selected_project) {
            Some(k) => k,
            None => {
                let msg = match source_project {
                    Some(n) => {
                        let mut m = "Project '".to_owned();
                        m.append(n);
                        m.append("' not found");
                        m
                    },
                    None => "Project not found".to_owned(),
                };
                return (out, Err(msg));
            },
        };
        let source = &refs[k];
        emit(&mut out, OutputLine::Subsection("Source Project".to_owned()));
        emit(&mut out, OutputLine::KeyValue("Name".to_owned(), source.name.clone()));
        emit(&mut out, OutputLine::KeyValue("Kind".to_owned(), source.kind.clone()));
        emit(&mut out, OutputLine::Blank);
        let source_dir = join(root, source.path.as_str());
        let envs = match Self::source_environments(&*fs, source_dir.as_str()) {
            Ok(e) => e,
            Err(e) => {
                return (out, Err(e));
            },
        };
        let ghost ev = views_of(envs@);
        assert(ev == clonable_environments(v0, source_dir@));
        if envs.len() == 0 {
            return (out, Err("Source project has no environments to clone".to_owned()));
        }
        let to_clone: Vec<String> = match environment {
            Some(e) => {
                if !contains_str(&envs, e) {
                    let mut m = "Environment '".to_owned();
                    m.append(e);
                    m.append("' not found in source project. Available: ");
                    m.append(crate::text::join_strings(&envs, ", ").as_str());
                    return (out, Err(m));
                }
                let mut v: Vec<String> = Vec::new();
                v.push(e.to_owned());
                v
            },
            None => {
                emit(&mut out, OutputLine::Subsection("Select Environments to Clone".to_owned()));
                crate::text::copy_strings(selected_environments)
            },
        };
        if to_clone.len() == 0 {
            return (out, Err("No environments selected".to_owned()));
        }
        emit(&mut out, OutputLine::Subsection("Cloning Configuration".to_owned()));
        emit(&mut out, OutputLine::KeyValue("Source".to_owned(), source.name.clone()));
        emit(&mut out, OutputLine::KeyValue("New Name".to_owned(), new_name.to_owned()));
        emit(&mut out, OutputLine::KeyValue("Environments".to_owned(), crate::text::join_strings(&to_clone, ", ")));
        emit(&mut out, OutputLine::Blank);
        if !confirmed {
            emit(&mut out, OutputLine::Dimmed("Clone cancelled.".to_owned()));
            return (out, Ok(()));
        }
        let projects_dir = join(root, "projects");
        let new_dir = join(projects_dir.as_str(), new_name);
        if fs.path_exists(new_dir.as_str()) {
            let mut m = "Project '".to_owned();
            m.append(new_name);
            m.append("' already exists");
            return (out, Err(m));
        }
        proof {
            reveal_strlit("projects");
            assert(new_dir@.len() > 0);
        }
        match fs.create_dir_all(new_dir.as_str()) {
            Ok(()) => {},
            Err(e) => {
                return (out, Err(e));
            },
        }
        assert(crate::fs::dir_prefixes(new_dir@).contains(new_dir@));
        assert(fs_has(fs@, new_dir@));
        let ghost v1 = fs@;
        assert(forall|x: Seq<char>| fs_has(v0, x) ==> fs_has(v1, x));
        let (mut rest, res) = Self::write_clone(fs, source_dir.as_str(), new_dir.as_str(), &source.name, new_name, &to_clone);
        let ghost rv = lines_view(rest@);
        let ghost o0 = lines_view(out@);
        out.append(&mut rest);
        proof {
            assert(lines_view(out@) =~= o0 + rv);
        }
        (out, res)
    }

    /// Writes the new project in `new_dir`: its project file, then each
    /// environment of `envs` copied from `source_dir`.
    fn write_clone(
        fs: &mut MemoryFileSystem,
        source_dir: &str,
        new_dir: &str,
        source_name: &String,
        new_name: &str,
        envs: &Vec<String>,
    ) -> (r: (Vec<OutputLine>, Result<(), String>))
        ensures
            forall|x: Seq<char>| fs_has(old(fs)@, x) ==> fs_has(final(fs)@, x),
            !fs_is_file(old(fs)@, join_spec(source_dir@, ".pmp.project.yaml"@)) ==> r.1 is Err && final(fs)@
                == old(fs)@ && r.0@.len() == 0,
            r.1 is Ok ==> lines_view(r.0@) == clone_report(new_dir@, new_name@, views_of(envs@)),
            r.1 is Ok ==> fs_has(final(fs)@, join_spec(new_dir@, ".pmp.project.yaml"@)),
            r.1 is Ok ==> forall|k: int|
                0 <= k < envs@.len() ==> fs_has(
                    final(fs)@,
                    join_spec(join_spec(new_dir@, "environments"@), #[trigger] envs@[k]@),
                ),
    {
        let mut out: Vec<OutputLine> = Vec::new();
        let ghost v0 = fs@;
        let ghost names = views_of(envs@);
        let source_yaml = join(source_dir, ".pmp.project.yaml");
        let new_yaml = join(new_dir, ".pmp.project.yaml");
        let content = match fs.read_to_string(source_yaml.as_str()) {
            Ok(c) => c,
            Err(e) => {
                return (out, Err(e));
            },
        };
        let mut from = "name: ".to_owned();
        from.append(source_name.as_str());
        let mut to = "name: ".to_owned();
        to.append(new_name);
        proof {
            reveal_strlit("name: ");
        }
        let renamed = replace_str(content.as_str(), from.as_str(), to.as_str());
        match fs.write(new_yaml.as_str(), renamed.as_str()) {
            Ok(()) => {},
            Err(e) => {
                return (out, Err(e));
            },
        }
        assert forall|x: Seq<char>| fs_has(v0, x) implies fs_has(fs@, x) by {
            assert(crate::fs::fs_index(fs@, x) == crate::fs::fs_index(fs@, x));
            if x == new_yaml@ {
                assert(crate::fs::fs_file(fs@, x) is Some);
            }
        }
        emit(&mut out, OutputLine::Success(concat("Created project identifier: ", new_name)));
        assert(lines_view(out@) =~= seq![LineView::Success("Created project identifier: "@ + new_name@)]
            + env_clone_lines(names.take(0)));
        let envs_dir = join(new_dir, "environments");
        let ghost v1 = fs@;
        match fs.create_dir_all(envs_dir.as_str()) {
            Ok(()) => {},
            Err(e) => {
                return (out, Err(e));
            },
        }
        assert forall|x: Seq<char>| fs_has(v1, x) implies fs_has(fs@, x) by {
            assert(crate::fs::fs_index(fs@, x) == crate::fs::fs_index(fs@, x));
        }
        let source_envs = join(source_dir, "environments");
        let mut i: usize = 0;
        while i < envs.len()
            invariant
                0 <= i <= envs.len(),
                v0 == old(fs)@,
                names == views_of(envs@),
                envs_dir@ == join_spec(new_dir@, "environments"@),
                source_envs@ == join_spec(source_dir@, "environments"@),
                forall|x: Seq<char>| fs_has(v0, x) ==> fs_has(fs@, x),
                fs_has(fs@, new_yaml@),
                new_yaml@ == join_spec(new_dir@, ".pmp.project.yaml"@),
                fs_is_file(v0, join_spec(source_dir@, ".pmp.project.yaml"@)),
                forall|k: int| 0 <= k < i ==> fs_has(fs@, join_spec(envs_dir@, #[trigger] envs@[k]@)),
                lines_view(out@) == seq![LineView::Success("Created project identifier: "@ + new_name@)]
                    + env_clone_lines(names.take(i as int)),
            decreases envs.len() - i,
        {
            let env = envs[i].as_str();
            emit(&mut out, OutputLine::Subsection(concat("Cloning environment: ", env)));
            let from_dir = join(source_envs.as_str(), env);
            let to_dir = join(envs_dir.as_str(), env);
            let ghost w0 = fs@;
            match fs.create_dir_all(to_dir.as_str()) {
                Ok(()) => {},
                Err(e) => {
                    return (out, Err(e));
                },
            }
            assert forall|x: Seq<char>| fs_has(w0, x) implies fs_has(fs@, x) by {
                assert(crate::fs::fs_index(fs@, x) == crate::fs::fs_index(fs@, x));
            }
            proof {
                reveal_strlit("environments");
                assert(envs_dir@.len() > 0);
                assert(to_dir@.len() > 0);
            }
            assert(crate::fs::dir_prefixes(to_dir@).contains(to_dir@));
            assert(crate::fs::fs_index(fs@, to_dir@) == crate::fs::fs_index(fs@, to_dir@));
            assert(fs_has(fs@, to_dir@));
            let plan = match Self::plan_copies(&*fs, from_dir.as_str(), to_dir.as_str(), new_name) {
                Ok(p) => p,
                Err(e) => {
                    return (out, Err(e));
                },
            };
            match Self::apply_copies(fs, &plan) {
                Ok(()) => {},
                Err(e) => {
                    return (out, Err(e));
                },
            }
            emit(&mut out, OutputLine::Success(concat("Cloned environment: ", env)));
            proof {
                assert(names[i as int] == env@);
                assert(names.take(i + 1).drop_last() =~= names.take(i as int));
                assert(lines_view(out@) =~= seq![LineView::Success("Created project identifier: "@ + new_name@)]
                    + env_clone_lines(names.take(i + 1)));
            }
            i = i + 1;
        }
        assert(names.take(i as int) =~= names);
        emit(&mut out, OutputLine::Blank);
        emit(&mut out, OutputLine::Success("Project cloned successfully!".to_owned()));
        emit(&mut out, OutputLine::KeyValue("Location".to_owned(), new_dir.to_owned()));
        emit(&mut out, OutputLine::Blank);
        emit(&mut out, OutputLine::Info("Next steps:".to_owned()));
        emit(&mut out, OutputLine::Dimmed("1. Review and customize the cloned project configuration".to_owned()));
        emit(&mut out, OutputLine::Dimmed("2. Update any environment-specific settings".to_owned()));
        let mut step = "3. Initialize: cd ".to_owned();
        step.append(new_dir);
        step.append(" && tofu init");
        emit(&mut out, OutputLine::Dimmed(step));
        assert(lines_view(out@) =~= clone_report(new_dir@, new_name@, names));
        (out, Ok(()))
    }
}

} // verus!
