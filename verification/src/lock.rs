//! The `lock` command: a user takes a lock on a project environment so that
//! others do not change it meanwhile, looks at the locks, and gives a lock
//! up. Each lock is a file `.pmp/locks/{project}-{environment}.lock` below
//! the infrastructure root; what decides, and what is shown, is here.

use vstd::prelude::*;
use crate::dependency_graph::{environment_at, environment_file_of};
use crate::discovery::{is_nearest_collection, no_collection_above, CollectionDiscovery};
use crate::fs::{fs_has, MemoryFileSystem};
use crate::output::{emit, lines_view, LineView, OutputLine};
use crate::paths::{extension_of, extension_spec, file_name_spec, join, join_spec};
use crate::resources::EnvironmentResource;
use crate::stamps::{is_hyphenated_uuid, new_uuid, now_rfc3339};
use crate::text::{concat, concat3, decimal, str_eq, to_chars, usize_to_string};

verus! {

broadcast use vstd::string::group_string_axioms;

/// The `lock` command.
pub struct LockCommand;

/// A lock on an environment of a project.
pub struct ProjectLock {
    pub project: String,
    pub environment: String,
    /// Who holds the lock.
    pub locked_by: String,
    /// When it was taken (RFC 3339).
    pub locked_at: String,
    pub lock_id: String,
    pub reason: Option<String>,
    pub expires_at: Option<String>,
}

/// The environment a lock command works on, and the root of its
/// infrastructure.
pub struct LockTarget {
    pub root: String,
    pub project: String,
    pub environment: String,
}

/// The directory of the lock files of the infrastructure at `root`.
pub open spec fn locks_dir_spec(root: Seq<char>) -> Seq<char> {
    join_spec(join_spec(root, ".pmp"@), "locks"@)
}

/// The lock file of the environment `environment` of `project`.
pub open spec fn lock_file_spec(root: Seq<char>, project: Seq<char>, environment: Seq<char>) -> Seq<char> {
    join_spec(locks_dir_spec(root), project + "-"@ + environment + ".lock"@)
}

/// Whether the file `p` is a lock file: its extension is `lock`.
pub open spec fn is_lock_file_spec(p: Seq<char>) -> bool {
    extension_spec(file_name_spec(p)) == Some("lock"@)
}

/// The view of an optional text.
pub open spec fn opt_text(o: Option<&str>) -> Option<Seq<char>> {
    match o {
        Some(s) => Some(s@),
        None => None,
    }
}

/// The view of an optional owned text.
pub open spec fn opt_string(o: Option<String>) -> Option<Seq<char>> {
    match o {
        Some(s) => Some(s@),
        None => None,
    }
}

/// The message when there is no infrastructure.
pub open spec fn no_infrastructure_message() -> Seq<char> {
    "Infrastructure is required. Run 'pmp init' first."@
}

/// Whether a lock command titled `title`, run in `current_dir` of `v` on
/// `path` (or `current_dir`), found the environment it works on: the lines
/// `ls`, and the environment (none, after `warning`, when the directory
/// holds no environment file).
pub open spec fn located(
    v: Seq<(Seq<char>, Option<Seq<char>>)>,
    current_dir: Seq<char>,
    path: Option<Seq<char>>,
    title: Seq<char>,
    warning: Seq<char>,
    ls: Seq<LineView>,
    res: Result<Option<LockTarget>, String>,
) -> bool {
    &&& ls.len() >= 2
    &&& ls.take(2) == seq![LineView::Section(title), LineView::Blank]
    &&& if no_collection_above(v, current_dir) {
        ls.len() == 2 && (res matches Err(e) && e@ == no_infrastructure_message())
    } else {
        exists|root: Seq<char>|
            #[trigger] is_nearest_collection(v, current_dir, root) && {
                let cur = match path {
                    Some(p) => p,
                    None => current_dir,
                };
                if !fs_has(v, environment_file_of(cur)) {
                    ls.skip(2) == seq![LineView::Warning(warning)] && res matches Ok(None)
                } else {
                    match environment_at(v, cur) {
                        None => ls.len() == 2 && res is Err,
                        Some(e) => ls.skip(2) == seq![
                            LineView::KeyValue("Project"@, e.2),
                            LineView::KeyValue("Environment"@, e.3),
                            LineView::Blank,
                        ] && (res matches Ok(Some(t)) && t.root@ == root && t.project@ == e.2
                            && t.environment@ == e.3),
                    }
                }
            }
    }
}

/// The lines shown when the environment is locked already by `l`.
pub open spec fn already_locked_lines(l: ProjectLock) -> Seq<LineView> {
    seq![
        LineView::Warning("Project is already locked"@),
        LineView::Dimmed("Locked by: "@ + l.locked_by@),
        LineView::Dimmed("Locked at: "@ + l.locked_at@),
    ] + match l.reason {
        Some(r) => seq![LineView::Dimmed("Reason: "@ + r@)],
        None => Seq::empty(),
    }
}

/// The lines shown once the lock `l` is taken.
pub open spec fn acquired_lines(l: ProjectLock) -> Seq<LineView> {
    seq![LineView::Success("Lock acquired"@), LineView::Dimmed("Lock ID: "@ + l.lock_id@)] + match l.reason {
        Some(r) => seq![LineView::Dimmed("Reason: "@ + r@)],
        None => Seq::empty(),
    }
}

/// Whether `user` may give up `lock`: it is theirs, or `force` overrides.
pub open spec fn may_release(lock: ProjectLock, user: Seq<char>, force: bool) -> bool {
    lock.locked_by@ == user || force
}

/// The lines that describe the lock of one environment (or that there is
/// none).
pub open spec fn status_lines_spec(lock: Option<ProjectLock>) -> Seq<LineView> {
    match lock {
        None => seq![LineView::Info("Project is not locked"@)],
        Some(l) => seq![
            LineView::Subsection("Lock Details"@),
            LineView::KeyValue("Locked by"@, l.locked_by@),
            LineView::KeyValue("Locked at"@, l.locked_at@),
        ] + match l.reason {
            Some(r) => seq![LineView::KeyValue("Reason"@, r@)],
            None => Seq::empty(),
        } + seq![LineView::KeyValue("Lock ID"@, l.lock_id@)],
    }
}

/// The lines that describe one of the active locks.
pub open spec fn active_lock_lines(l: ProjectLock) -> Seq<LineView> {
    seq![
        LineView::Dimmed(l.project@ + "/"@ + l.environment@),
        LineView::Dimmed("  Locked by: "@ + l.locked_by@),
        LineView::Dimmed("  Locked at: "@ + l.locked_at@),
    ] + match l.reason {
        Some(r) => seq![LineView::Dimmed("  Reason: "@ + r@)],
        None => Seq::empty(),
    } + seq![LineView::Dimmed("  Lock ID: "@ + l.lock_id@), LineView::Blank]
}

/// The lines of the active locks `ls`, one after another.
pub open spec fn active_locks_lines(ls: Seq<ProjectLock>) -> Seq<LineView>
    decreases ls.len(),
{
    if ls.len() == 0 {
        Seq::empty()
    } else {
        active_locks_lines(ls.drop_last()) + active_lock_lines(ls.last())
    }
}

/// The report of all active locks.
pub open spec fn all_locks_report(ls: Seq<ProjectLock>) -> Seq<LineView> {
    if ls.len() == 0 {
        seq![LineView::Info("No active locks"@)]
    } else {
        seq![LineView::Subsection("Active Locks"@), LineView::Blank] + active_locks_lines(ls) + seq![
            LineView::Success(decimal(ls.len()) + " active locks"@),
        ]
    }
}

impl LockCommand {
    /// The directory of the lock files of the infrastructure at `root`.
    pub fn locks_dir(root: &str) -> (r: String)
        ensures
            r@ == locks_dir_spec(root@),
    {
        let pmp = join(root, ".pmp");
        join(pmp.as_str(), "locks")
    }

    /// The lock file of the environment `environment` of `project`.
    pub fn lock_file(root: &str, project: &str, environment: &str) -> (r: String)
        ensures
            r@ == lock_file_spec(root@, project@, environment@),
    {
        let dir = Self::locks_dir(root);
        let mut name = concat3(project, "-", environment);
        name.append(".lock");
        join(dir.as_str(), name.as_str())
    }

    /// Whether the file `p` is a lock file (its extension is `lock`).
    pub fn is_lock_file(p: &str) -> (r: bool)
        ensures
            r == is_lock_file_spec(p@),
    {
        match extension_of(p) {
            Some(e) => str_eq(e.as_str(), "lock"),
            None => false,
        }
    }

    /// The reason a user typed for a lock: none when the answer is empty.
    pub fn reason_from_input(input: &str) -> (r: Option<String>)
        ensures
            input@.len() == 0 ==> r is None,
            input@.len() > 0 ==> (r matches Some(s) && s@ == input@),
    {
        if to_chars(input).len() == 0 {
            None
        } else {
            Some(input.to_owned())
        }
    }

    /// Opens a lock command titled `title` in `current_dir`: finds the
    /// infrastructure and the environment in `path` (or `current_dir`),
    /// whose project and environment are shown; when the directory holds no
    /// environment file, shows `warning` and finds none.
    pub fn locate_environment(
        fs: &MemoryFileSystem,
        current_dir: &str,
        path: Option<&str>,
        title: &str,
        warning: &str,
    ) -> (r: (Vec<OutputLine>, Result<Option<LockTarget>, String>))
        ensures
            located(fs@, current_dir@, opt_text(path), title@, warning@, lines_view(r.0@), r.1),
    {
        let mut out: Vec<OutputLine> = Vec::new();
        assert(lines_view(out@) =~= Seq::<LineView>::empty());
        emit(&mut out, OutputLine::Section(title.to_owned()));
        emit(&mut out, OutputLine::Blank);
        let ghost head = lines_view(out@);
        assert(head =~= seq![LineView::Section(title@), LineView::Blank]);
        assert(lines_view(out@).take(2) =~= head);
        let found = match CollectionDiscovery::find_collection_in_path(fs, current_dir) {
            Ok(f) => f,
            Err(e) => {
                return (out, Err(e));
            },
        };
        let (_infrastructure, root) = match found {
            Some(x) => x,
            None => {
                proof {
                    reveal_strlit("Infrastructure is required. Run 'pmp init' first.");
                }
                return (out, Err("Infrastructure is required. Run 'pmp init' first.".to_owned()));
            },
        };
        proof {
            crate::discovery::lemma_nearest_excludes_none(fs@, current_dir@, root@);
        }
        let cur = match path {
            Some(p) => p,
            None => current_dir,
        };
        let env_file = join(cur, ".pmp.environment.yaml");
        if !fs.path_exists(env_file.as_str()) {
            emit(&mut out, OutputLine::Warning(warning.to_owned()));
            assert(lines_view(out@).take(2) =~= head);
            assert(lines_view(out@).skip(2) =~= seq![LineView::Warning(warning@)]);
            assert(is_nearest_collection(fs@, current_dir@, root@));
            return (out, Ok(None));
        }
        let resource = match EnvironmentResource::from_file(fs, env_file.as_str()) {
            Ok(r) => r,
            Err(e) => {
                assert(lines_view(out@).take(2) =~= head);
                assert(is_nearest_collection(fs@, current_dir@, root@));
                return (out, Err(e));
            },
        };
        assert(environment_at(fs@, cur@) == Some(resource@));
        let project = resource.metadata.name;
        let environment = resource.metadata.environment_name;
        emit(&mut out, OutputLine::KeyValue("Project".to_owned(), project.clone()));
        emit(&mut out, OutputLine::KeyValue("Environment".to_owned(), environment.clone()));
        emit(&mut out, OutputLine::Blank);
        proof {
            assert(lines_view(out@).take(2) =~= head);
            assert(lines_view(out@).skip(2) =~= seq![
                LineView::KeyValue("Project"@, project@),
                LineView::KeyValue("Environment"@, environment@),
                LineView::Blank,
            ]);
            assert(is_nearest_collection(fs@, current_dir@, root@));
        }
        (out, Ok(Some(LockTarget { root, project, environment })))
    }

    /// Takes a lock on `target` for `user`, unless `existing` holds it
    /// already: the lines to show (once the new lock is kept), and the new
    /// lock, with a fresh id and the present time.
    pub fn acquire(existing: Option<&ProjectLock>, target: &LockTarget, user: &str, reason: Option<&str>) -> (r: (
        Vec<OutputLine>,
        Option<ProjectLock>,
    ))
        ensures
            existing matches Some(l) ==> r.1 is None && lines_view(r.0@) == already_locked_lines(*l),
            existing is None ==> (r.1 matches Some(l) && {
                &&& l.project@ == target.project@
                &&& l.environment@ == target.environment@
                &&& l.locked_by@ == user@
                &&& is_hyphenated_uuid(l.lock_id@)
                &&& opt_string(l.reason) == opt_text(reason)
                &&& l.expires_at is None
                &&& lines_view(r.0@) == acquired_lines(l)
            }),
    {
        let mut out: Vec<OutputLine> = Vec::new();
        assert(lines_view(out@) =~= Seq::<LineView>::empty());
        match existing {
            Some(l) => {
                emit(&mut out, OutputLine::Warning("Project is already locked".to_owned()));
                emit(&mut out, OutputLine::Dimmed(concat("Locked by: ", l.locked_by.as_str())));
                emit(&mut out, OutputLine::Dimmed(concat("Locked at: ", l.locked_at.as_str())));
                match &l.reason {
                    Some(r) => {
                        emit(&mut out, OutputLine::Dimmed(concat("Reason: ", r.as_str())));
                    },
                    None => {},
                }
                assert(lines_view(out@) =~= already_locked_lines(*l));
                (out, None)
            },
            None => {
                let lock = ProjectLock {
                    project: target.project.clone(),
                    environment: target.environment.clone(),
                    locked_by: user.to_owned(),
                    locked_at: now_rfc3339(),
                    lock_id: new_uuid(),
                    reason: match reason {
                        Some(r) => Some(r.to_owned()),
                        None => None,
                    },
                    expires_at: None,
                };
                emit(&mut out, OutputLine::Success("Lock acquired".to_owned()));
                emit(&mut out, OutputLine::Dimmed(concat("Lock ID: ", lock.lock_id.as_str())));
                match reason {
                    Some(r) => {
                        emit(&mut out, OutputLine::Dimmed(concat("Reason: ", r)));
                    },
                    None => {},
                }
                assert(lines_view(out@) =~= acquired_lines(lock));
                (out, Some(lock))
            },
        }
    }

    /// Gives up `lock` for `current_user` (`force` overrides whose it is):
    /// the lines to show first, whether to remove the lock file, and the
    /// lines to show once it is removed.
    pub fn release(lock: Option<&ProjectLock>, current_user: &str, force: bool) -> (r: (
        Vec<OutputLine>,
        bool,
        Vec<OutputLine>,
    ))
        ensures
            r.1 <==> (lock matches Some(l) && may_release(*l, current_user@, force)),
            r.1 ==> lines_view(r.2@) == seq![LineView::Success("Lock released"@)],
            !r.1 ==> r.2@.len() == 0,
            lock is None ==> lines_view(r.0@) == seq![LineView::Info("Project is not locked"@)],
            lock matches Some(l) ==> (!may_release(*l, current_user@, force) ==> lines_view(r.0@) == seq![
                LineView::Warning("Lock is owned by another user"@),
                LineView::Dimmed("Locked by: "@ + l.locked_by@),
                LineView::Dimmed("Use --force to override (requires admin privileges)"@),
            ]),
            lock matches Some(l) ==> (may_release(*l, current_user@, force) ==> lines_view(r.0@) == if l.locked_by@
                == current_user@ {
                Seq::<LineView>::empty()
            } else {
                seq![LineView::Warning("Forcing lock release (this action is logged)"@)]
            }),
    {
        let mut before: Vec<OutputLine> = Vec::new();
        let mut after: Vec<OutputLine> = Vec::new();
        assert(lines_view(before@) =~= Seq::<LineView>::empty());
        assert(lines_view(after@) =~= Seq::<LineView>::empty());
        match lock {
            None => {
                emit(&mut before, OutputLine::Info("Project is not locked".to_owned()));
                assert(lines_view(before@) =~= seq![LineView::Info("Project is not locked"@)]);
                (before, false, after)
            },
            Some(l) => {
                let own = str_eq(l.locked_by.as_str(), current_user);
                if !own && !force {
                    emit(&mut before, OutputLine::Warning("Lock is owned by another user".to_owned()));
                    emit(&mut before, OutputLine::Dimmed(concat("Locked by: ", l.locked_by.as_str())));
                    emit(
                        &mut before,
                        OutputLine::Dimmed("Use --force to override (requires admin privileges)".to_owned()),
                    );
                    assert(lines_view(before@) =~= seq![
                        LineView::Warning("Lock is owned by another user"@),
                        LineView::Dimmed("Locked by: "@ + l.locked_by@),
                        LineView::Dimmed("Use --force to override (requires admin privileges)"@),
                    ]);
                    return (before, false, after);
                }
                if force && !own {
                    emit(&mut before, OutputLine::Warning("Forcing lock release (this action is logged)".to_owned()));
                    assert(lines_view(before@) =~= seq![
                        LineView::Warning("Forcing lock release (this action is logged)"@),
                    ]);
                }
                emit(&mut after, OutputLine::Success("Lock released".to_owned()));
                assert(lines_view(after@) =~= seq![LineView::Success("Lock released"@)]);
                (before, true, after)
            },
        }
    }

    /// The lines that describe the lock of one environment, or that it has
    /// none.
    pub fn status_lines(lock: Option<&ProjectLock>) -> (r: Vec<OutputLine>)
        ensures
            lines_view(r@) == status_lines_spec(
                match lock {
                    Some(l) => Some(*l),
                    None => None,
                },
            ),
    {
        let mut out: Vec<OutputLine> = Vec::new();
        assert(lines_view(out@) =~= Seq::<LineView>::empty());
        match lock {
            None => {
                emit(&mut out, OutputLine::Info("Project is not locked".to_owned()));
                assert(lines_view(out@) =~= seq![LineView::Info("Project is not locked"@)]);
            },
            Some(l) => {
                emit(&mut out, OutputLine::Subsection("Lock Details".to_owned()));
                emit(&mut out, OutputLine::KeyValue("Locked by".to_owned(), l.locked_by.clone()));
                emit(&mut out, OutputLine::KeyValue("Locked at".to_owned(), l.locked_at.clone()));
                match &l.reason {
                    Some(r) => {
                        emit(&mut out, OutputLine::KeyValue("Reason".to_owned(), r.clone()));
                    },
                    None => {},
                }
                emit(&mut out, OutputLine::KeyValue("Lock ID".to_owned(), l.lock_id.clone()));
                assert(lines_view(out@) =~= status_lines_spec(Some(*l)));
            },
        }
        out
    }

    /// The report of the active locks `locks`, in order, and how many there
    /// are.
    pub fn all_locks_lines(locks: &Vec<ProjectLock>) -> (r: Vec<OutputLine>)
        ensures
            lines_view(r@) == all_locks_report(locks@),
    {
        let mut out: Vec<OutputLine> = Vec::new();
        assert(lines_view(out@) =~= Seq::<LineView>::empty());
        if locks.len() == 0 {
            emit(&mut out, OutputLine::Info("No active locks".to_owned()));
            assert(lines_view(out@) =~= all_locks_report(locks@));
            return out;
        }
        emit(&mut out, OutputLine::Subsection("Active Locks".to_owned()));
        emit(&mut out, OutputLine::Blank);
        let ghost head = lines_view(out@);
        let mut i: usize = 0;
        assert(locks@.take(0) =~= Seq::<ProjectLock>::empty());
        while i < locks.len()
            invariant
                0 <= i <= locks.len(),
                lines_view(out@) == head + active_locks_lines(locks@.take(i as int)),
            decreases locks.len() - i,
        {
            let l = &locks[i];
            let ghost before = lines_view(out@);
            emit(&mut out, OutputLine::Dimmed(concat3(l.project.as_str(), "/", l.environment.as_str())));
            emit(&mut out, OutputLine::Dimmed(concat("  Locked by: ", l.locked_by.as_str())));
            emit(&mut out, OutputLine::Dimmed(concat("  Locked at: ", l.locked_at.as_str())));
            match &l.reason {
                Some(r) => {
                    emit(&mut out, OutputLine::Dimmed(concat("  Reason: ", r.as_str())));
                },
                None => {},
            }
            emit(&mut out, OutputLine::Dimmed(concat("  Lock ID: ", l.lock_id.as_str())));
            emit(&mut out, OutputLine::Blank);
            proof {
                assert(lines_view(out@) =~= before + active_lock_lines(*l));
                assert(locks@.take(i + 1).drop_last() =~= locks@.take(i as int));
                assert(locks@.take(i + 1).last() == *l);
            }
            i = i + 1;
        }
        assert(locks@.take(locks.len() as int) =~= locks@);
        let mut tail = usize_to_string(locks.len());
        tail.append(" active locks");
        emit(&mut out, OutputLine::Success(tail));
        assert(lines_view(out@) =~= all_locks_report(locks@));
        out
    }
}

/// The user who took a lock may always give it up, without forcing.
pub proof fn lemma_owner_may_release(lock: ProjectLock)
    ensures
        may_release(lock, lock.locked_by@, false),
{
}

/// Another user may give up a lock only by forcing it.
pub proof fn lemma_others_must_force(lock: ProjectLock, user: Seq<char>)
    requires
        user != lock.locked_by@,
    ensures
        !may_release(lock, user, false),
        may_release(lock, user, true),
{
}

} // verus!
