//! The `env sync` command: for each project, the inputs that all its
//! environments share with the same value.

use vstd::prelude::*;
use crate::ci::opt_view;
use crate::discovery::{all_found_projects, infrastructure_at, is_nearest_collection, no_collection_above, CollectionDiscovery};
use crate::env_command::{file_inputs, file_inputs_readable, input_names, input_value, env_file_in, EnvCommand};
use crate::fs::{children_spec, fs_has, fs_is_dir, MemoryFileSystem};
use crate::json::{json_equal, json_values_equal, JsonValue};
use crate::output::{emit, lines_view, LineView, OutputLine};
use crate::paths::{join, join_spec};
use crate::resources::{infrastructure_view, ProjectReference};
use crate::text::{concat, concat3, contains, decimal, has_substring, join_strings, joined, lowercase, to_lowercase, usize_to_string, views_of};

verus! {

broadcast use vstd::string::group_string_axioms;

/// Whether the project named `name` passes `filter`: its name holds the
/// filter, both in lower case.
pub open spec fn name_matches(name: Seq<char>, filter: Option<Seq<char>>) -> bool {
    match filter {
        Some(f) => has_substring(lowercase(name), lowercase(f)),
        None => true,
    }
}

/// The projects of `refs` that pass `filter`, in order.
pub open spec fn matching(refs: Seq<ProjectReference>, filter: Option<Seq<char>>) -> Seq<ProjectReference> {
    refs.filter(|p: ProjectReference| name_matches(p.name@, filter))
}

/// The directory that holds the environments of the project `p` of the
/// infrastructure at `root`.
pub open spec fn envs_dir_of(root: Seq<char>, p: ProjectReference) -> Seq<char> {
    join_spec(join_spec(root, p.path@), "environments"@)
}

/// The environment files of the directories `dirs` that exist, in order.
pub open spec fn existing_env_files(v: Seq<(Seq<char>, Option<Seq<char>>)>, dirs: Seq<Seq<char>>) -> Seq<Seq<char>>
    decreases dirs.len(),
{
    if dirs.len() == 0 {
        Seq::empty()
    } else {
        existing_env_files(v, dirs.drop_last()) + if fs_has(v, env_file_in(dirs.last())) {
            seq![env_file_in(dirs.last())]
        } else {
            Seq::empty()
        }
    }
}

/// The inputs of `c` that `r` has with the same value, in the order of `c`.
pub open spec fn shared_with(c: Seq<(String, JsonValue)>, r: Seq<(String, JsonValue)>) -> Seq<(String, JsonValue)> {
    c.filter(
        |e: (String, JsonValue)|
            input_value(r, e.0@) matches Some(w) && json_equal(e.1, w),
    )
}

/// The inputs that all of `rs` have with the same value, in the order of
/// the first.
pub open spec fn common_inputs(rs: Seq<Seq<(String, JsonValue)>>) -> Seq<(String, JsonValue)>
    decreases rs.len(),
{
    if rs.len() <= 1 {
        if rs.len() == 1 {
            rs[0]
        } else {
            Seq::empty()
        }
    } else {
        shared_with(common_inputs(rs.drop_last()), rs.last())
    }
}

/// Whether `rs` are the inputs read from each of `files`.
pub open spec fn readings_of(
    v: Seq<(Seq<char>, Option<Seq<char>>)>,
    files: Seq<Seq<char>>,
    rs: Seq<Seq<(String, JsonValue)>>,
) -> bool {
    rs.len() == files.len() && forall|i: int| 0 <= i < files.len() ==> file_inputs(v, files[i], #[trigger] rs[i])
}

/// The lines that show the inputs `c` that the `n` environments of the
/// project named `name` share.
pub open spec fn common_lines(name: Seq<char>, n: nat, c: Seq<(String, JsonValue)>) -> Seq<LineView> {
    if c.len() > 0 {
        seq![
            LineView::Subsection("Project: "@ + name),
            LineView::Dimmed(
                "  Common inputs across "@ + decimal(n) + " environments: "@ + joined(input_names(c), ", "@),
            ),
        ]
    } else {
        Seq::empty()
    }
}

/// Whether looking at the environments of the project `p` showed `block`:
/// nothing for a project with fewer than two environment files; else the
/// inputs that the files, read as `rs`, share.
pub open spec fn project_synced(
    v: Seq<(Seq<char>, Option<Seq<char>>)>,
    root: Seq<char>,
    p: ProjectReference,
    block: Seq<LineView>,
) -> bool {
    let ed = envs_dir_of(root, p);
    if !fs_has(v, ed) {
        block.len() == 0
    } else {
        let files = existing_env_files(v, children_spec(v, ed));
        if files.len() < 2 {
            block.len() == 0
        } else {
            exists|rs: Seq<Seq<(String, JsonValue)>>|
                #[trigger] readings_of(v, files, rs) && block == common_lines(
                    p.name@,
                    files.len(),
                    common_inputs(rs),
                )
        }
    }
}

/// Whether looking at the environments of the project `p` fails: its
/// environments directory is no directory, or one of two or more
/// environment files cannot be read.
pub open spec fn project_sync_fails(v: Seq<(Seq<char>, Option<Seq<char>>)>, root: Seq<char>, p: ProjectReference) -> bool {
    let ed = envs_dir_of(root, p);
    fs_has(v, ed) && (!fs_is_dir(v, ed) || {
        let files = existing_env_files(v, children_spec(v, ed));
        files.len() >= 2 && exists|i: int| 0 <= i < files.len() && !file_inputs_readable(v, #[trigger] files[i])
    })
}

/// How many of `bs` show anything.
pub open spec fn count_shown(bs: Seq<Seq<LineView>>) -> nat
    decreases bs.len(),
{
    if bs.len() == 0 {
        0
    } else {
        count_shown(bs.drop_last()) + if bs.last().len() > 0 {
            1nat
        } else {
            0nat
        }
    }
}

/// Whether `ls` and `res`, shown after the header, are what looking at the
/// projects `ps` gives: each project's shared inputs, then how many
/// projects had any; or the lines up to a project that could not be looked
/// at, and an error.
pub open spec fn sync_tail(
    v: Seq<(Seq<char>, Option<Seq<char>>)>,
    root: Seq<char>,
    ps: Seq<ProjectReference>,
    ls: Seq<LineView>,
    res: Result<(), String>,
) -> bool {
    exists|bs: Seq<Seq<LineView>>|
        #![trigger bs.flatten_alt()]
        bs.len() <= ps.len() && (forall|i: int| 0 <= i < bs.len() ==> project_synced(v, root, ps[i], #[trigger] bs[i]))
            && if bs.len() < ps.len() {
            project_sync_fails(v, root, ps[bs.len() as int]) && res is Err && ls == bs.flatten_alt()
        } else {
            res is Ok && ls == bs.flatten_alt() + seq![
                LineView::Blank,
                LineView::Success("Analyzed "@ + decimal(count_shown(bs)) + " project(s) for common settings"@),
            ]
        }
}

/// Whether `ls` and `res` are what the `env sync` command gives for the
/// infrastructure nearest at or above `start`, with the project filter
/// `filter`.
pub open spec fn sync_report(
    v: Seq<(Seq<char>, Option<Seq<char>>)>,
    start: Seq<char>,
    filter: Option<Seq<char>>,
    ls: Seq<LineView>,
    res: Result<(), String>,
) -> bool {
    exists|root: Seq<char>|
        #[trigger] is_nearest_collection(v, start, root) && match infrastructure_at(v, root) {
            Some(i) => ls.len() >= 3 && ls.take(3) == seq![
                LineView::Section("Environment Synchronization"@),
                LineView::KeyValue("Infrastructure"@, i.0),
                LineView::Blank,
            ] && ((crate::discovery::discovery(v, root) is None && ls.len() == 3 && res is Err) || exists|refs: Seq<ProjectReference>|
                #[trigger] all_found_projects(v, join_spec(root, "projects"@), root, refs) && crate::discovery::discovery(v, root) == Some(crate::discovery::refs_view(refs)) && if refs.len() == 0 {
                    ls.skip(3) == seq![LineView::Dimmed("No projects found."@)] && res is Ok
                } else if matching(refs, filter).len() == 0 {
                    ls.skip(3) == seq![LineView::Dimmed("No matching projects found."@)] && res is Ok
                } else {
                    sync_tail(v, root, matching(refs, filter), ls.skip(3), res)
                }),
            None => false,
        }
}

/// `p`, field by field.
fn copy_reference(p: &ProjectReference) -> (r: ProjectReference)
    ensures
        r == *p,
{
    ProjectReference { name: p.name.clone(), kind: p.kind.clone(), path: p.path.clone() }
}

impl EnvCommand {
    /// The projects of `refs` whose name holds `filter` (ignoring case),
    /// all of them without a filter.
    pub fn matching_projects(refs: &Vec<ProjectReference>, filter: Option<&str>) -> (r: Vec<ProjectReference>)
        ensures
            r@ == matching(refs@, opt_view(filter)),
    {
        let lower_filter = match filter {
            Some(f) => Some(to_lowercase(f)),
            None => None,
        };
        let ghost fv = opt_view(filter);
        let mut out: Vec<ProjectReference> = Vec::new();
        let mut i: usize = 0;
        while i < refs.len()
            invariant
                i <= refs.len(),
                fv == opt_view(filter),
                lower_filter matches Some(lf) ==> fv matches Some(f) && lf@ == lowercase(f),
                lower_filter is None ==> fv is None,
                out@ == refs@.take(i as int).filter(|p: ProjectReference| name_matches(p.name@, fv)),
            decreases refs.len() - i,
        {
            proof {
                reveal(Seq::filter);
                assert(refs@.take(i + 1).drop_last() =~= refs@.take(i as int));
                assert(refs@.take(i + 1).last() == refs@[i as int]);
            }
            let keep = match &lower_filter {
                Some(lf) => {
                    let name = to_lowercase(refs[i].name.as_str());
                    contains(name.as_str(), lf.as_str())
                },
                None => true,
            };
            if keep {
                out.push(copy_reference(&refs[i]));
            }
            i = i + 1;
        }
        assert(refs@.take(refs.len() as int) =~= refs@);
        out
    }

    /// The environment files of the directories `dirs` that exist.
    fn env_files_in(fs: &MemoryFileSystem, dirs: &Vec<String>) -> (r: Vec<String>)
        ensures
            views_of(r@) == existing_env_files(fs@, views_of(dirs@)),
    {
        let ghost dv = views_of(dirs@);
        let mut out: Vec<String> = Vec::new();
        let mut i: usize = 0;
        while i < dirs.len()
            invariant
                i <= dirs.len(),
                dv == views_of(dirs@),
                views_of(out@) == existing_env_files(fs@, dv.take(i as int)),
            decreases dirs.len() - i,
        {
            assert(dv.take(i + 1).drop_last() =~= dv.take(i as int));
            assert(dv.take(i + 1).last() == dirs@[i as int]@);
            let f = join(dirs[i].as_str(), ".pmp.environment.yaml");
            if fs.path_exists(f.as_str()) {
                let ghost before = out@;
                let ghost fv = f@;
                out.push(f);
                assert(views_of(out@) =~= views_of(before).push(fv));
            }
            i = i + 1;
        }
        assert(dv.take(dirs.len() as int) =~= dv);
        out
    }

    /// The inputs of `c` that `r` has with the same value.
    fn keep_shared(c: Vec<(String, JsonValue)>, r: &Vec<(String, JsonValue)>) -> (out: Vec<(String, JsonValue)>)
        ensures
            out@ == shared_with(c@, r@),
    {
        let ghost cv = c@;
        assert(cv.len() == c.len());
        let mut rest = c;
        let mut out: Vec<(String, JsonValue)> = Vec::new();
        let mut i: usize = 0;
        while rest.len() > 0
            invariant
                i + rest@.len() == cv.len(),
                cv.len() <= usize::MAX,
                rest@ == cv.skip(i as int),
                out@ == cv.take(i as int).filter(
                    |e: (String, JsonValue)| input_value(r@, e.0@) matches Some(w) && json_equal(e.1, w),
                ),
            decreases rest.len(),
        {
            proof {
                reveal(Seq::filter);
                assert(cv.take(i + 1).drop_last() =~= cv.take(i as int));
                assert(cv.take(i + 1).last() == cv[i as int]);
                assert(cv.skip(i as int)[0] == cv[i as int]);
            }
            let e = rest.remove(0);
            proof {
                assert(rest@ =~= cv.skip(i + 1));
            }
            let keep = match EnvCommand::find_input(r, e.0.as_str()) {
                Some(w) => json_values_equal(&e.1, w),
                None => false,
            };
            if keep {
                out.push(e);
            }
            i = i + 1;
        }
        assert(cv.take(cv.len() as int) =~= cv);
        out
    }

    /// Looks at the environments of the project `p` of the infrastructure
    /// at `root`: the lines that show the inputs they all share.
    fn sync_project(fs: &MemoryFileSystem, root: &str, p: &ProjectReference) -> (r: Result<Vec<OutputLine>, String>)
        ensures
            match r {
                Ok(ls) => project_synced(fs@, root@, *p, lines_view(ls@)),
                Err(_) => project_sync_fails(fs@, root@, *p),
            },
    {
        let none: Vec<OutputLine> = Vec::new();
        assert(lines_view(none@) =~= Seq::<LineView>::empty());
        let project_dir = join(root, p.path.as_str());
        let envs = join(project_dir.as_str(), "environments");
        if !fs.path_exists(envs.as_str()) {
            return Ok(none);
        }
        let dirs = match fs.read_dir(envs.as_str()) {
            Ok(d) => d,
            Err(e) => {
                return Err(e);
            },
        };
        assert(views_of(dirs@) == children_spec(fs@, envs@));
        let files = Self::env_files_in(fs, &dirs);
        let ghost fv = views_of(files@);
        if files.len() < 2 {
            return Ok(none);
        }
        let ghost mut rs: Seq<Seq<(String, JsonValue)>> = Seq::empty();
        let mut common: Vec<(String, JsonValue)> = Vec::new();
        let mut i: usize = 0;
        while i < files.len()
            invariant
                i <= files.len(),
                fv == views_of(files@),
                fv == existing_env_files(fs@, children_spec(fs@, envs@)),
                fv.len() >= 2,
                rs.len() == i,
                forall|j: int| 0 <= j < i ==> file_inputs(fs@, fv[j], #[trigger] rs[j]),
                common@ == common_inputs(rs),
                fs_has(fs@, envs@),
                envs@ == envs_dir_of(root@, *p),
            decreases files.len() - i,
        {
            let m = match Self::environment_inputs(fs, files[i].as_str()) {
                Ok(m) => m,
                Err(e) => {
                    assert(!file_inputs_readable(fs@, fv[i as int]));
                    return Err(e);
                },
            };
            proof {
                let rs2 = rs.push(m@);
                assert(rs2.drop_last() =~= rs);
                if i == 0 {
                    assert(rs2.len() == 1);
                }
            }
            if i == 0 {
                common = m;
            } else {
                common = Self::keep_shared(common, &m);
            }
            proof {
                rs = rs.push(m@);
            }
            i = i + 1;
        }
        assert(readings_of(fs@, fv, rs));
        let mut out: Vec<OutputLine> = Vec::new();
        if common.len() > 0 {
            let mut names: Vec<String> = Vec::new();
            let mut j: usize = 0;
            while j < common.len()
                invariant
                    j <= common.len(),
                    views_of(names@) == input_names(common@.take(j as int)),
                decreases common.len() - j,
            {
                let ghost before = names@;
                names.push(common[j].0.clone());
                assert(views_of(names@) =~= views_of(before).push(common@[j as int].0@));
                assert(input_names(common@.take(j + 1)) =~= input_names(common@.take(j as int)).push(
                    common@[j as int].0@,
                ));
                j = j + 1;
            }
            assert(common@.take(common.len() as int) =~= common@);
            emit(&mut out, OutputLine::Subsection(concat("Project: ", p.name.as_str())));
            let a = concat3("  Common inputs across ", usize_to_string(files.len()).as_str(), " environments: ");
            emit(&mut out, OutputLine::Dimmed(concat(a.as_str(), join_strings(&names, ", ").as_str())));
        }
        assert(lines_view(out@) =~= common_lines(p.name@, fv.len(), common_inputs(rs)));
        Ok(out)
    }

    /// The `env sync` command on the infrastructure at or above
    /// `current_dir`: for each project whose name holds `project_filter`,
    /// the inputs that all its environments share with the same value.
    /// Problems with single project files go to `warnings`.
    pub fn execute_sync(
        fs: &MemoryFileSystem,
        warnings: &mut Vec<String>,
        current_dir: &str,
        project_filter: Option<&str>,
    ) -> (r: (Vec<OutputLine>, Result<(), String>))
        ensures
            no_collection_above(fs@, current_dir@) ==> lines_view(r.0@) == seq![
                LineView::Section("Environment Synchronization"@),
            ] && (r.1 matches Err(e) && e@ == "Infrastructure is required. Run 'pmp init' first."@),
            !no_collection_above(fs@, current_dir@) ==> sync_report(
                fs@,
                current_dir@,
                opt_view(project_filter),
                lines_view(r.0@),
                r.1,
            ),
    {
        let mut out: Vec<OutputLine> = Vec::new();
        emit(&mut out, OutputLine::Section("Environment Synchronization".to_owned()));
        let found = match CollectionDiscovery::find_collection_in_path(fs, current_dir) {
            Ok(f) => f,
            Err(e) => {
                return (out, Err(e));
            },
        };
        let (infrastructure, root) = match found {
            Some(x) => x,
            None => {
                assert(lines_view(out@) =~= seq![LineView::Section("Environment Synchronization"@)]);
                return (out, Err("Infrastructure is required. Run 'pmp init' first.".to_owned()));
            },
        };
        proof {
            if no_collection_above(fs@, current_dir@) {
                let k = choose|k: int|
                    0 <= k < crate::discovery::ancestors(current_dir@).len()
                        && crate::discovery::ancestors(current_dir@)[k] == root@
                        && infrastructure_at(fs@, root@) is Some
                        && forall|j: int|
                        0 <= j < k ==> infrastructure_at(
                            fs@,
                            #[trigger] crate::discovery::ancestors(current_dir@)[j],
                        ) is None;
                assert(infrastructure_at(fs@, crate::discovery::ancestors(current_dir@)[k]) is None);
            }
        }
        let name = infrastructure.metadata.name.clone();
        let ghost nm = name@;
        assert(nm == infrastructure_view(infrastructure).0);
        emit(&mut out, OutputLine::KeyValue("Infrastructure".to_owned(), name));
        emit(&mut out, OutputLine::Blank);
        let ghost head = lines_view(out@);
        assert(head =~= seq![
            LineView::Section("Environment Synchronization"@),
            LineView::KeyValue("Infrastructure"@, nm),
            LineView::Blank,
        ]);
        assert(is_nearest_collection(fs@, current_dir@, root@));
        let projects = match CollectionDiscovery::discover_projects(fs, warnings, root.as_str()) {
            Ok(p) => p,
            Err(e) => {
                assert(lines_view(out@).take(3) =~= head);
                return (out, Err(e));
            },
        };
        assert(all_found_projects(fs@, join_spec(root@, "projects"@), root@, projects@));
        if projects.len() == 0 {
            emit(&mut out, OutputLine::Dimmed("No projects found.".to_owned()));
            assert(lines_view(out@).take(3) =~= head);
            assert(lines_view(out@).skip(3) =~= seq![LineView::Dimmed("No projects found."@)]);
            return (out, Ok(()));
        }
        let chosen = Self::matching_projects(&projects, project_filter);
        if chosen.len() == 0 {
            emit(&mut out, OutputLine::Dimmed("No matching projects found.".to_owned()));
            assert(lines_view(out@).take(3) =~= head);
            assert(lines_view(out@).skip(3) =~= seq![LineView::Dimmed("No matching projects found."@)]);
            return (out, Ok(()));
        }
        let ghost ps = chosen@;
        let ghost mut bs: Seq<Seq<LineView>> = Seq::empty();
        let mut count: usize = 0;
        let mut i: usize = 0;
        assert(bs.flatten_alt() =~= Seq::<LineView>::empty());
        assert(lines_view(out@) =~= head + bs.flatten_alt());
        while i < chosen.len()
            invariant
                i <= chosen.len(),
                ps == chosen@,
                bs.len() == i,
                forall|j: int| 0 <= j < i ==> project_synced(fs@, root@, ps[j], #[trigger] bs[j]),
                count == count_shown(bs),
                count <= i,
                head == seq![
                    LineView::Section("Environment Synchronization"@),
                    LineView::KeyValue("Infrastructure"@, nm),
                    LineView::Blank,
                ],
                lines_view(out@) == head + bs.flatten_alt(),
                !no_collection_above(fs@, current_dir@),
                is_nearest_collection(fs@, current_dir@, root@),
                infrastructure_at(fs@, root@) == Some(infrastructure_view(infrastructure)),
                nm == infrastructure_view(infrastructure).0,
                all_found_projects(fs@, join_spec(root@, "projects"@), root@, projects@),
                crate::discovery::discovery(fs@, root@) == Some(crate::discovery::refs_view(projects@)),
                ps == matching(projects@, opt_view(project_filter)),
                projects@.len() > 0,
                ps.len() > 0,
            decreases chosen.len() - i,
        {
            match Self::sync_project(fs, root.as_str(), &chosen[i]) {
                Ok(block) => {
                    let ghost bv = lines_view(block@);
                    let ghost before = lines_view(out@);
                    if block.len() > 0 {
                        count = count + 1;
                    }
                    let mut rest = block;
                    out.append(&mut rest);
                    proof {
                        assert(lines_view(out@) =~= before + bv);
                        let bs2 = bs.push(bv);
                        assert(bs2.drop_last() =~= bs);
                        assert(lines_view(out@) =~= head + bs2.flatten_alt());
                        bs = bs2;
                    }
                },
                Err(e) => {
                    proof {
                        assert(lines_view(out@).take(3) =~= head);
                        assert(lines_view(out@).skip(3) =~= bs.flatten_alt());
                        assert(sync_tail(fs@, root@, ps, lines_view(out@).skip(3), Err::<(), String>(e)));
                    }
                    return (out, Err(e));
                },
            }
            i = i + 1;
        }
        emit(&mut out, OutputLine::Blank);
        let a = concat3("Analyzed ", usize_to_string(count).as_str(), " project(s) for common settings");
        emit(&mut out, OutputLine::Success(a));
        proof {
            assert(lines_view(out@).take(3) =~= head);
            assert(lines_view(out@).skip(3) =~= bs.flatten_alt() + seq![
                LineView::Blank,
                LineView::Success("Analyzed "@ + decimal(count_shown(bs)) + " project(s) for common settings"@),
            ]);
            assert(sync_tail(fs@, root@, ps, lines_view(out@).skip(3), Ok::<(), String>(())));
        }
        (out, Ok(()))
    }
}

} // verus!
