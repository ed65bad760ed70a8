//! The `env promote` command: carries the inputs of one environment over to
//! another in every project, keeping a backup of each file it overwrites.

use vstd::prelude::*;
use crate::ci::opt_view;
use crate::discovery::{all_found_projects, infrastructure_at, is_nearest_collection, no_collection_above, CollectionDiscovery};
use crate::env_command::{count_true, env_dir_of, env_file_in, file_inputs_readable, inputs_value, EnvCommand};
use crate::env_sync::matching;
use crate::fs::{fs_file, fs_has, written, MemoryFileSystem};
use crate::output::{emit, lines_view, LineView, OutputLine};
use crate::paths::{join, join_spec};
use crate::resources::{infrastructure_view, ProjectReference};
use crate::text::{concat, concat3, decimal, usize_to_string};
use crate::yaml::{emit_yaml_checked, parse_yaml, set_spec_inputs, spec_inputs_set, take_value, yaml_document, yaml_get, yaml_get_opt, yaml_text, YamlValue};

verus! {

broadcast use vstd::string::group_string_axioms;

/// The file system as plain values.
pub type FsView = Seq<(Seq<char>, Option<Seq<char>>)>;

/// Whether `y` is the `inputs` value that a promotion carries over from the
/// source document `sdoc`: its `spec.inputs`, an empty mapping where it has
/// none.
pub open spec fn carried_inputs(sdoc: YamlValue, y: YamlValue) -> bool {
    match inputs_value(sdoc) {
        Some(x) => y == x,
        None => y matches YamlValue::Mapping(m) && m@.len() == 0,
    }
}

/// Where a file overwritten by a promotion is kept.
pub open spec fn backup_file_of(f: Seq<char>) -> Seq<char> {
    f + ".backup"@
}

/// Whether `v1` is `v0` after promoting the environment file `sf` over
/// `tf`: both can be read, `tf` is kept in its backup file, then holds its
/// own document with the inputs of `sf`.
pub open spec fn promoted_files(v0: FsView, v1: FsView, sf: Seq<char>, tf: Seq<char>) -> bool {
    exists|sdoc: YamlValue, tdoc: YamlValue, carried: YamlValue, new: YamlValue, mid: FsView|
        #![auto]
        file_inputs_readable(v0, sf) && file_inputs_readable(v0, tf) && (fs_file(v0, sf) matches Some(st)
            && yaml_document(st) == Ok::<YamlValue, Seq<char>>(sdoc)) && (fs_file(v0, tf) matches Some(tt)
            && yaml_document(tt) == Ok::<YamlValue, Seq<char>>(tdoc) && written(v0, mid, backup_file_of(tf), tt))
            && carried_inputs(sdoc, carried) && spec_inputs_set(tdoc, new, carried) && written(
            mid,
            v1,
            tf,
            yaml_text(new),
        )
}

/// Whether promoting `src` over `tgt` in the project `p` took `v0` to `v1`
/// and showed `block`, `counted` telling whether it promoted anything: a
/// project without one of the environments is skipped with a notice, one
/// without one of the files silently; else the inputs are carried over.
pub open spec fn project_promoted(
    v0: FsView,
    v1: FsView,
    root: Seq<char>,
    p: ProjectReference,
    src: Seq<char>,
    tgt: Seq<char>,
    counted: bool,
    block: Seq<LineView>,
) -> bool {
    let sd = env_dir_of(root, p, src);
    let td = env_dir_of(root, p, tgt);
    if !fs_has(v0, sd) {
        !counted && v1 == v0 && block == seq![
            LineView::Dimmed("Skipping "@ + p.name@ + " - source environment not found"@),
        ]
    } else if !fs_has(v0, td) {
        !counted && v1 == v0 && block == seq![
            LineView::Dimmed("Skipping "@ + p.name@ + " - target environment not found"@),
        ]
    } else if !(fs_has(v0, env_file_in(sd)) && fs_has(v0, env_file_in(td))) {
        !counted && v1 == v0 && block.len() == 0
    } else {
        counted && block == seq![
            LineView::Success(
                "Promoted "@ + p.name@ + " (backup: "@ + backup_file_of(env_file_in(td)) + ")"@,
            ),
        ] && promoted_files(v0, v1, env_file_in(sd), env_file_in(td))
    }
}

/// Whether promoting in the project `p` can fail: only where both
/// environment files are there.
pub open spec fn project_promote_may_fail(v0: FsView, root: Seq<char>, p: ProjectReference, src: Seq<char>, tgt: Seq<char>) -> bool {
    let sd = env_dir_of(root, p, src);
    let td = env_dir_of(root, p, tgt);
    fs_has(v0, sd) && fs_has(v0, td) && fs_has(v0, env_file_in(sd)) && fs_has(v0, env_file_in(td))
}

/// Whether promoting in the projects `ps` took `v0` to `v1`, showed `ls`
/// and ended with `res`: each project in turn, then how many were
/// promoted; or the lines up to a project whose promotion failed, and an
/// error.
pub open spec fn promote_tail(
    v0: FsView,
    v1: FsView,
    root: Seq<char>,
    ps: Seq<ProjectReference>,
    src: Seq<char>,
    tgt: Seq<char>,
    ls: Seq<LineView>,
    res: Result<(), String>,
) -> bool {
    exists|vs: Seq<FsView>, cs: Seq<bool>, bs: Seq<Seq<LineView>>|
        #![trigger vs.last(), cs.len(), bs.flatten_alt()]
        vs.len() == bs.len() + 1 && cs.len() == bs.len() && bs.len() <= ps.len() && vs[0] == v0 && (forall|i: int|
            0 <= i < bs.len() ==> project_promoted(
                vs[i],
                vs[i + 1],
                root,
                ps[i],
                src,
                tgt,
                cs[i],
                #[trigger] bs[i],
            )) && if bs.len() < ps.len() {
            project_promote_may_fail(vs.last(), root, ps[bs.len() as int], src, tgt) && res is Err && ls
                == bs.flatten_alt()
        } else {
            res is Ok && v1 == vs.last() && ls == bs.flatten_alt() + seq![
                LineView::Blank,
                LineView::Success(
                    "Promoted "@ + decimal(count_true(cs)) + " project(s) from "@ + src + " to "@ + tgt,
                ),
            ]
        }
}

/// The first lines of a promotion from `src` to `tgt` in the
/// infrastructure named `infra`.
pub open spec fn promotion_header(infra: Seq<char>, src: Seq<char>, tgt: Seq<char>) -> Seq<LineView> {
    seq![
        LineView::Section("Environment Promotion"@),
        LineView::KeyValue("Infrastructure"@, infra),
        LineView::KeyValue("Source Environment"@, src),
        LineView::KeyValue("Target Environment"@, tgt),
        LineView::Blank,
    ]
}

/// Whether promoting `src` over `tgt` in the projects of the
/// infrastructure nearest at or above `start` that pass `filter`, where
/// the user answered `confirmed`, took `v0` to `v1`, showed `ls` and ended
/// with `res`.
pub open spec fn promote_report(
    v0: FsView,
    v1: FsView,
    start: Seq<char>,
    src: Seq<char>,
    tgt: Seq<char>,
    filter: Option<Seq<char>>,
    confirmed: bool,
    ls: Seq<LineView>,
    res: Result<(), String>,
) -> bool {
    exists|root: Seq<char>|
        #[trigger] is_nearest_collection(v0, start, root) && match infrastructure_at(v0, root) {
            Some(i) => ls.len() >= 5 && ls.take(5) == promotion_header(i.0, src, tgt) && ((crate::discovery::discovery(v0, root) is None && ls.len() == 5
                && res is Err && v1 == v0) || exists|refs: Seq<ProjectReference>|
                #[trigger] all_found_projects(v0, join_spec(root, "projects"@), root, refs) && crate::discovery::discovery(v0, root) == Some(crate::discovery::refs_view(refs)) && if refs.len() == 0 {
                    ls.skip(5) == seq![LineView::Dimmed("No projects found."@)] && res is Ok && v1 == v0
                } else if matching(refs, filter).len() == 0 {
                    ls.skip(5) == seq![LineView::Dimmed("No matching projects found."@)] && res is Ok && v1 == v0
                } else {
                    ls.len() >= 7 && ls.skip(5).take(2) == seq![
                        LineView::Info(
                            "Found "@ + decimal(matching(refs, filter).len()) + " project(s) to promote"@,
                        ),
                        LineView::Blank,
                    ] && if !confirmed {
                        ls.skip(7) == seq![LineView::Dimmed("Promotion cancelled."@)] && res is Ok && v1 == v0
                    } else {
                        promote_tail(v0, v1, root, matching(refs, filter), src, tgt, ls.skip(7), res)
                    }
                }),
            None => false,
        }
}

impl EnvCommand {
    /// The question asked before promoting `src` over `tgt`.
    pub fn promote_question(src: &str, tgt: &str) -> (r: String)
        ensures
            r@ == "Promote "@ + src@ + " → "@ + tgt@ + "? This will overwrite target configurations."@,
    {
        let a = concat3("Promote ", src, " → ");
        concat3(a.as_str(), tgt, "? This will overwrite target configurations.")
    }

    /// Promotes the environment file `sf` over `tf`: keeps `tf` in its
    /// backup file and writes it back with the inputs of `sf`.
    fn promote_files(fs: &mut MemoryFileSystem, sf: &str, tf: &str) -> (r: Result<(), String>)
        requires
            fs_has(old(fs)@, sf@),
            fs_has(old(fs)@, tf@),
        ensures
            r is Ok ==> promoted_files(old(fs)@, final(fs)@, sf@, tf@),
            !(file_inputs_readable(old(fs)@, sf@) && file_inputs_readable(old(fs)@, tf@)) ==> r is Err
                && final(fs)@ == old(fs)@,
    {
        let ghost v0 = fs@;
        if let Err(e) = Self::environment_inputs(fs, sf) {
            return Err(e);
        }
        if let Err(e) = Self::environment_inputs(fs, tf) {
            return Err(e);
        }
        let stext = match fs.read_to_string(sf) {
            Ok(t) => t,
            Err(e) => {
                return Err(e);
            },
        };
        let ttext = match fs.read_to_string(tf) {
            Ok(t) => t,
            Err(e) => {
                return Err(e);
            },
        };
        let sdoc = match parse_yaml(stext.as_str()) {
            Ok(d) => d,
            Err(e) => {
                return Err(e);
            },
        };
        let tdoc = match parse_yaml(ttext.as_str()) {
            Ok(d) => d,
            Err(e) => {
                return Err(e);
            },
        };
        let ghost sd = sdoc;
        let ghost td = tdoc;
        assert(crate::resources::environment_spec(td) is Some);
        let carried = match take_value(sdoc, "spec") {
            Some(spec) => match take_value(spec, "inputs") {
                Some(y) => y,
                None => YamlValue::Mapping(Vec::new()),
            },
            None => YamlValue::Mapping(Vec::new()),
        };
        assert(carried_inputs(sd, carried));
        let ghost cv = carried;
        assert(yaml_get(td, "spec"@) matches Some(YamlValue::Mapping(_)));
        let new_doc = set_spec_inputs(tdoc, carried);
        let new_text = match emit_yaml_checked(&new_doc) {
            Ok(t) => t,
            Err(e) => {
                return Err(e);
            },
        };
        let backup = concat(tf, ".backup");
        if let Err(e) = fs.write(backup.as_str(), ttext.as_str()) {
            return Err(e);
        }
        let ghost mid = fs@;
        if let Err(e) = fs.write(tf, new_text.as_str()) {
            return Err(e);
        }
        assert(written(v0, mid, backup_file_of(tf@), ttext@));
        assert(written(mid, fs@, tf@, yaml_text(new_doc)));
        assert(file_inputs_readable(v0, sf@) && file_inputs_readable(v0, tf@));
        assert(fs_file(v0, sf@) == Some(stext@) && yaml_document(stext@) == Ok::<YamlValue, Seq<char>>(sd));
        assert(fs_file(v0, tf@) == Some(ttext@) && yaml_document(ttext@) == Ok::<YamlValue, Seq<char>>(td));
        assert(spec_inputs_set(td, new_doc, cv));
        assert(promoted_files(v0, fs@, sf@, tf@));
        Ok(())
    }

    /// Promotes `src` over `tgt` in the project `p` of the infrastructure at
    /// `root`: whether it promoted anything, and the lines shown.
    fn promote_project(fs: &mut MemoryFileSystem, root: &str, p: &ProjectReference, src: &str, tgt: &str) -> (r: Result<
        (bool, Vec<OutputLine>),
        String,
    >)
        ensures
            match r {
                Ok(o) => project_promoted(old(fs)@, final(fs)@, root@, *p, src@, tgt@, o.0, lines_view(o.1@)),
                Err(_) => project_promote_may_fail(old(fs)@, root@, *p, src@, tgt@),
            },
    {
        let mut out: Vec<OutputLine> = Vec::new();
        let project_dir = join(root, p.path.as_str());
        let envs = join(project_dir.as_str(), "environments");
        let sd = join(envs.as_str(), src);
        let td = join(envs.as_str(), tgt);
        if !fs.path_exists(sd.as_str()) {
            emit(
                &mut out,
                OutputLine::Dimmed(concat3("Skipping ", p.name.as_str(), " - source environment not found")),
            );
            assert(lines_view(out@) =~= seq![
                LineView::Dimmed("Skipping "@ + p.name@ + " - source environment not found"@),
            ]);
            return Ok((false, out));
        }
        if !fs.path_exists(td.as_str()) {
            emit(
                &mut out,
                OutputLine::Dimmed(concat3("Skipping ", p.name.as_str(), " - target environment not found")),
            );
            assert(lines_view(out@) =~= seq![
                LineView::Dimmed("Skipping "@ + p.name@ + " - target environment not found"@),
            ]);
            return Ok((false, out));
        }
        let sf = join(sd.as_str(), ".pmp.environment.yaml");
        let tf = join(td.as_str(), ".pmp.environment.yaml");
        if !fs.path_exists(sf.as_str()) || !fs.path_exists(tf.as_str()) {
            assert(lines_view(out@) =~= Seq::<LineView>::empty());
            return Ok((false, out));
        }
        if let Err(e) = Self::promote_files(fs, sf.as_str(), tf.as_str()) {
            return Err(e);
        }
        let backup = concat(tf.as_str(), ".backup");
        let a = concat3("Promoted ", p.name.as_str(), " (backup: ");
        emit(&mut out, OutputLine::Success(concat3(a.as_str(), backup.as_str(), ")")));
        assert(lines_view(out@) =~= seq![
            LineView::Success("Promoted "@ + p.name@ + " (backup: "@ + backup_file_of(tf@) + ")"@),
        ]);
        Ok((true, out))
    }

    /// The `env promote` command on the infrastructure at or above
    /// `current_dir`: in each project whose name holds `project_filter`,
    /// the inputs of the environment `source_env` are carried over to
    /// `target_env`, when the user `confirmed` it. Problems with single
    /// project files go to `warnings`.
    pub fn execute_promote(
        fs: &mut MemoryFileSystem,
        warnings: &mut Vec<String>,
        current_dir: &str,
        source_env: &str,
        target_env: &str,
        project_filter: Option<&str>,
        confirmed: bool,
    ) -> (r: (Vec<OutputLine>, Result<(), String>))
        ensures
            no_collection_above(old(fs)@, current_dir@) ==> lines_view(r.0@) == seq![
                LineView::Section("Environment Promotion"@),
            ] && (r.1 matches Err(e) && e@ == "Infrastructure is required. Run 'pmp init' first."@)
                && final(fs)@ == old(fs)@,
            !no_collection_above(old(fs)@, current_dir@) ==> promote_report(
                old(fs)@,
                final(fs)@,
                current_dir@,
                source_env@,
                target_env@,
                opt_view(project_filter),
                confirmed,
                lines_view(r.0@),
                r.1,
            ),
    {
        let ghost v0 = fs@;
        let mut out: Vec<OutputLine> = Vec::new();
        emit(&mut out, OutputLine::Section("Environment Promotion".to_owned()));
        let found = match CollectionDiscovery::find_collection_in_path(fs, current_dir) {
            Ok(f) => f,
            Err(e) => {
                return (out, Err(e));
            },
        };
        let (infrastructure, root) = match found {
            Some(x) => x,
            None => {
                assert(lines_view(out@) =~= seq![LineView::Section("Environment Promotion"@)]);
                return (out, Err("Infrastructure is required. Run 'pmp init' first.".to_owned()));
            },
        };
        proof {
            if no_collection_above(fs@, current_dir@) {
                let k = choose|k: int|
                    0 <= k < crate::discovery::ancestors(current_dir@).len()
                        && crate::discovery::ancestors(current_dir@)[k] == root@
                        && infrastructure_at(fs@, root@) is Some
                        && forall|j: int|
                        0 <= j < k ==> infrastructure_at(
                            fs@,
                            #[trigger] crate::discovery::ancestors(current_dir@)[j],
                        ) is None;
                assert(infrastructure_at(fs@, crate::discovery::ancestors(current_dir@)[k]) is None);
            }
        }
        let name = infrastructure.metadata.name.clone();
        let ghost nm = name@;
        assert(nm == infrastructure_view(infrastructure).0);
        emit(&mut out, OutputLine::KeyValue("Infrastructure".to_owned(), name));
        emit(&mut out, OutputLine::KeyValue("Source Environment".to_owned(), source_env.to_owned()));
        emit(&mut out, OutputLine::KeyValue("Target Environment".to_owned(), target_env.to_owned()));
        emit(&mut out, OutputLine::Blank);
        let ghost head = lines_view(out@);
        assert(head =~= promotion_header(nm, source_env@, target_env@));
        assert(is_nearest_collection(fs@, current_dir@, root@));
        let projects = match CollectionDiscovery::discover_projects(fs, warnings, root.as_str()) {
            Ok(p) => p,
            Err(e) => {
                assert(lines_view(out@).take(5) =~= head);
                return (out, Err(e));
            },
        };
        assert(all_found_projects(fs@, join_spec(root@, "projects"@), root@, projects@));
        if projects.len() == 0 {
            emit(&mut out, OutputLine::Dimmed("No projects found.".to_owned()));
            assert(lines_view(out@).take(5) =~= head);
            assert(lines_view(out@).skip(5) =~= seq![LineView::Dimmed("No projects found."@)]);
            return (out, Ok(()));
        }
        let chosen = Self::matching_projects(&projects, project_filter);
        if chosen.len() == 0 {
            emit(&mut out, OutputLine::Dimmed("No matching projects found.".to_owned()));
            assert(lines_view(out@).take(5) =~= head);
            assert(lines_view(out@).skip(5) =~= seq![LineView::Dimmed("No matching projects found."@)]);
            return (out, Ok(()));
        }
        emit(
            &mut out,
            OutputLine::Info(concat3("Found ", usize_to_string(chosen.len()).as_str(), " project(s) to promote")),
        );
        emit(&mut out, OutputLine::Blank);
        let ghost head2 = lines_view(out@);
        assert(head2.skip(5) =~= seq![
            LineView::Info("Found "@ + decimal(chosen@.len()) + " project(s) to promote"@),
            LineView::Blank,
        ]);
        assert(head2.take(5) =~= head);
        if !confirmed {
            emit(&mut out, OutputLine::Dimmed("Promotion cancelled.".to_owned()));
            assert(lines_view(out@).take(5) =~= head);
            assert(lines_view(out@).skip(5).take(2) =~= head2.skip(5));
            assert(lines_view(out@).skip(7) =~= seq![LineView::Dimmed("Promotion cancelled."@)]);
            return (out, Ok(()));
        }
        let ghost ps = chosen@;
        let ghost mut vs: Seq<FsView> = seq![fs@];
        let ghost mut cs: Seq<bool> = Seq::empty();
        let ghost mut bs: Seq<Seq<LineView>> = Seq::empty();
        let mut count: usize = 0;
        let mut i: usize = 0;
        assert(bs.flatten_alt() =~= Seq::<LineView>::empty());
        assert(lines_view(out@) =~= head2 + bs.flatten_alt());
        while i < chosen.len()
            invariant
                i <= chosen.len(),
                ps == chosen@,
                vs.len() == i + 1,
                cs.len() == i,
                bs.len() == i,
                vs[0] == v0,
                v0 == old(fs)@,
                vs.last() == fs@,
                forall|j: int|
                    0 <= j < i ==> project_promoted(
                        vs[j],
                        vs[j + 1],
                        root@,
                        ps[j],
                        source_env@,
                        target_env@,
                        cs[j],
                        #[trigger] bs[j],
                    ),
                count == count_true(cs),
                count <= i,
                head2.len() == 7,
                head2.take(5) == head,
                head == promotion_header(nm, source_env@, target_env@),
                head2.skip(5) == seq![
                    LineView::Info("Found "@ + decimal(ps.len()) + " project(s) to promote"@),
                    LineView::Blank,
                ],
                lines_view(out@) == head2 + bs.flatten_alt(),
                !no_collection_above(v0, current_dir@),
                is_nearest_collection(v0, current_dir@, root@),
                infrastructure_at(v0, root@) == Some(infrastructure_view(infrastructure)),
                nm == infrastructure_view(infrastructure).0,
                all_found_projects(v0, join_spec(root@, "projects"@), root@, projects@),
                crate::discovery::discovery(v0, root@) == Some(crate::discovery::refs_view(projects@)),
                ps == matching(projects@, opt_view(project_filter)),
                projects@.len() > 0,
                ps.len() > 0,
                confirmed,
            decreases chosen.len() - i,
        {
            let ghost before_fs = fs@;
            match Self::promote_project(fs, root.as_str(), &chosen[i], source_env, target_env) {
                Ok((counted, block)) => {
                    let ghost bv = lines_view(block@);
                    let ghost before = lines_view(out@);
                    if counted {
                        count = count + 1;
                    }
                    let mut rest = block;
                    out.append(&mut rest);
                    proof {
                        assert(lines_view(out@) =~= before + bv);
                        let bs2 = bs.push(bv);
                        let cs2 = cs.push(counted);
                        let vs2 = vs.push(fs@);
                        assert(bs2.drop_last() =~= bs);
                        assert(cs2.drop_last() =~= cs);
                        assert(lines_view(out@) =~= head2 + bs2.flatten_alt());
                        assert forall|j: int|
                            0 <= j < i + 1 implies project_promoted(
                            vs2[j],
                            vs2[j + 1],
                            root@,
                            ps[j],
                            source_env@,
                            target_env@,
                            cs2[j],
                            #[trigger] bs2[j],
                        ) by {
                            if j < i {
                                assert(vs2[j] == vs[j]);
                                assert(vs2[j + 1] == vs[j + 1]);
                                assert(bs2[j] == bs[j]);
                                assert(cs2[j] == cs[j]);
                            } else {
                                assert(vs2[j] == before_fs);
                            }
                        }
                        bs = bs2;
                        cs = cs2;
                        vs = vs2;
                    }
                },
                Err(e) => {
                    proof {
                        assert(lines_view(out@).take(5) =~= head);
                        assert(lines_view(out@).skip(5).take(2) =~= head2.skip(5));
                        assert(lines_view(out@).skip(7) =~= bs.flatten_alt());
                        assert(promote_tail(
                            v0,
                            fs@,
                            root@,
                            ps,
                            source_env@,
                            target_env@,
                            lines_view(out@).skip(7),
                            Err::<(), String>(e),
                        ));
                    }
                    return (out, Err(e));
                },
            }
            i = i + 1;
        }
        emit(&mut out, OutputLine::Blank);
        let a = concat3("Promoted ", usize_to_string(count).as_str(), " project(s) from ");
        let b = concat3(a.as_str(), source_env, " to ");
        emit(&mut out, OutputLine::Success(concat(b.as_str(), target_env)));
        proof {
            assert(lines_view(out@).take(5) =~= head);
            assert(lines_view(out@).skip(5).take(2) =~= head2.skip(5));
            assert(lines_view(out@).skip(7) =~= bs.flatten_alt() + seq![
                LineView::Blank,
                LineView::Success(
                    "Promoted "@ + decimal(count_true(cs)) + " project(s) from "@ + source_env@ + " to "@ + target_env@,
                ),
            ]);
            assert(promote_tail(
                v0,
                fs@,
                root@,
                ps,
                source_env@,
                target_env@,
                lines_view(out@).skip(7),
                Ok::<(), String>(()),
            ));
        }
        (out, Ok(()))
    }
}

} // verus!
