//! More developer conveniences: exporting an environment to another tool's
//! format, the commands of the interactive shell, and documentation of the
//! infrastructure.

use vstd::prelude::*;
use crate::dependency_graph::environment_at;
use crate::devex::DevExCommand;
use crate::discovery::{all_found_projects, infrastructure_at, is_nearest_collection, no_collection_above, CollectionDiscovery};
use crate::fs::{children_spec, fs_file, fs_has, fs_is_dir, write_ok, written, MemoryFileSystem};
use crate::output::{emit, lines_view, LineView, OutputLine};
use crate::paths::{file_name, file_name_spec, join, join_spec, starts_with};
use crate::resources::{infrastructure_view, EnvironmentResource, ProjectReference};
use crate::text::{concat, concat3, str_eq, string_from_range, to_chars, trim, trim_spec};

verus! {

broadcast use vstd::string::group_string_axioms;

/// What the interactive shell is asked to do by one line.
pub enum ShellCommand {
    /// Nothing: an empty line.
    Nothing,
    Exit,
    Help,
    List,
    Pwd,
    /// Change to this directory.
    Cd(String),
    /// Show this project.
    Show(String),
    /// Inspect the environment in this directory.
    Inspect(String),
    /// A line that names no command.
    Unknown(String),
}

/// What an export to `format` of the environment `env` of the project
/// `name` shows and gives: the notice and the text, or nothing for a format
/// that is not supported.
pub open spec fn export_of(format: Seq<char>, name: Seq<char>, env: Seq<char>) -> Option<(Seq<char>, Seq<char>)> {
    if format == "helm"@ {
        Some(
            (
                "Exporting to Helm chart format..."@,
                "# Helm Chart: "@ + name + "\\n# Environment: "@ + env + "\\n# TODO: Implement Helm export\\n"@,
            ),
        )
    } else if format == "cloudformation"@ || format == "cfn"@ {
        Some(
            (
                "Exporting to CloudFormation format..."@,
                "# CloudFormation Template: "@ + name + "\\n# Environment: "@ + env
                    + "\\n# TODO: Implement CloudFormation export\\n"@,
            ),
        )
    } else if format == "pulumi"@ {
        Some(
            (
                "Exporting to Pulumi format..."@,
                "# Pulumi Program: "@ + name + "\\n# Environment: "@ + env + "\\n# TODO: Implement Pulumi export\\n"@,
            ),
        )
    } else {
        None
    }
}

/// Whether `s` starts with `p`.
pub open spec fn has_prefix(s: Seq<char>, p: Seq<char>) -> bool {
    p.len() <= s.len() && s.subrange(0, p.len() as int) == p
}

/// The command a line of the shell asks for.
pub open spec fn shell_command_of(line: Seq<char>, c: ShellCommand) -> bool {
    let t = trim_spec(line);
    if t.len() == 0 {
        c is Nothing
    } else if t == "exit"@ || t == "quit"@ {
        c is Exit
    } else if t == "help"@ {
        c is Help
    } else if t == "list"@ || t == "ls"@ {
        c is List
    } else if t == "pwd"@ {
        c is Pwd
    } else if has_prefix(t, "cd "@) {
        c matches ShellCommand::Cd(p) && p@ == trim_spec(t.skip(3))
    } else if has_prefix(t, "show "@) {
        c matches ShellCommand::Show(p) && p@ == trim_spec(t.skip(5))
    } else if has_prefix(t, "inspect "@) {
        c matches ShellCommand::Inspect(p) && p@ == trim_spec(t.skip(8))
    } else {
        c matches ShellCommand::Unknown(u) && u@ == t
    }
}

/// The lines of the shell's help.
pub open spec fn shell_help_lines() -> Seq<LineView> {
    seq![
        LineView::Subsection("Available Commands"@),
        LineView::Blank,
        LineView::Dimmed("  help              - Show this help message"@),
        LineView::Dimmed("  list, ls          - List all projects"@),
        LineView::Dimmed("  pwd               - Print current directory"@),
        LineView::Dimmed("  cd <path>         - Change directory"@),
        LineView::Dimmed("  show <project>    - Show project details"@),
        LineView::Dimmed("  inspect <path>    - Inspect environment details"@),
        LineView::Dimmed("  exit, quit        - Exit the shell"@),
    ]
}

/// The lines that list the projects `refs`.
pub open spec fn project_list_lines(refs: Seq<ProjectReference>) -> Seq<LineView> {
    if refs.len() == 0 {
        seq![LineView::Dimmed("No projects found."@)]
    } else {
        seq![LineView::Subsection("Projects"@), LineView::Blank] + refs.map_values(
            |p: ProjectReference| LineView::Info("• "@ + p.name@ + " ("@ + p.kind@ + ") - "@ + p.path@),
        )
    }
}

/// The lines that show the project `p` of the infrastructure at `root`:
/// its details, then its environments where it has an environments
/// directory.
pub open spec fn project_show_lines(v: Seq<(Seq<char>, Option<Seq<char>>)>, root: Seq<char>, p: ProjectReference) -> Seq<LineView> {
    let ed = join_spec(join_spec(root, p.path@), "environments"@);
    seq![
        LineView::Subsection(p.name@),
        LineView::Blank,
        LineView::KeyValue("Name"@, p.name@),
        LineView::KeyValue("Kind"@, p.kind@),
        LineView::KeyValue("Path"@, p.path@),
    ] + if fs_is_dir(v, ed) {
        seq![LineView::Blank, LineView::Dimmed("Environments:"@)] + children_spec(v, ed).map_values(
            |d: Seq<char>| LineView::Dimmed("  • "@ + file_name_spec(d)),
        )
    } else {
        Seq::empty()
    }
}

/// The index of the first of `refs` named `name`, or `-1`.
pub open spec fn project_index(refs: Seq<ProjectReference>, name: Seq<char>) -> int
    decreases refs.len(),
{
    if refs.len() == 0 {
        -1
    } else if project_index(refs.drop_last(), name) >= 0 {
        project_index(refs.drop_last(), name)
    } else if refs.last().name@ == name {
        refs.len() - 1
    } else {
        -1
    }
}

/// The text of `s`'s characters from `from` on.
fn rest_of(cs: &Vec<char>, from: usize) -> (r: String)
    requires
        from <= cs@.len(),
    ensures
        r@ == cs@.skip(from as int),
{
    let r = string_from_range(cs, from, cs.len());
    assert(cs@.subrange(from as int, cs@.len() as int) =~= cs@.skip(from as int));
    r
}

/// Whether `cs` starts with the characters of `p`.
fn begins_with(cs: &Vec<char>, p: &str) -> (r: bool)
    ensures
        r == has_prefix(cs@, p@),
{
    let pc = to_chars(p);
    starts_with(cs, &pc)
}

impl DevExCommand {
    /// Exports the environment `resource` to `target_format`: the notice
    /// shown and the text, or the refusal of a format that is not
    /// supported.
    pub fn export_to_format(resource: &EnvironmentResource, target_format: &str) -> (r: Result<(OutputLine, String), String>)
        ensures
            match export_of(target_format@, resource.metadata.name@, resource.metadata.environment_name@) {
                Some(x) => r matches Ok(o) && o.0@ == LineView::Dimmed(x.0) && o.1@ == x.1,
                None => r matches Err(e) && e@ == "Unsupported export format: "@ + target_format@,
            },
    {
        let name = resource.metadata.name.as_str();
        let env = resource.metadata.environment_name.as_str();
        proof {
            reveal_strlit("helm");
            reveal_strlit("cloudformation");
            reveal_strlit("cfn");
            reveal_strlit("pulumi");
        }
        if str_eq(target_format, "helm") {
            let a = concat3("# Helm Chart: ", name, "\\n# Environment: ");
            let text = concat3(a.as_str(), env, "\\n# TODO: Implement Helm export\\n");
            Ok((OutputLine::Dimmed("Exporting to Helm chart format...".to_owned()), text))
        } else if str_eq(target_format, "cloudformation") || str_eq(target_format, "cfn") {
            let a = concat3("# CloudFormation Template: ", name, "\\n# Environment: ");
            let text = concat3(a.as_str(), env, "\\n# TODO: Implement CloudFormation export\\n");
            Ok((OutputLine::Dimmed("Exporting to CloudFormation format...".to_owned()), text))
        } else if str_eq(target_format, "pulumi") {
            let a = concat3("# Pulumi Program: ", name, "\\n# Environment: ");
            let text = concat3(a.as_str(), env, "\\n# TODO: Implement Pulumi export\\n");
            Ok((OutputLine::Dimmed("Exporting to Pulumi format...".to_owned()), text))
        } else {
            Err(concat("Unsupported export format: ", target_format))
        }
    }

    /// The command that a line typed in the shell asks for.
    pub fn shell_command(line: &str) -> (r: ShellCommand)
        ensures
            shell_command_of(line@, r),
    {
        let t = trim(line);
        let cs = to_chars(t.as_str());
        if cs.len() == 0 {
            return ShellCommand::Nothing;
        }
        let s = t.as_str();
        if str_eq(s, "exit") || str_eq(s, "quit") {
            ShellCommand::Exit
        } else if str_eq(s, "help") {
            ShellCommand::Help
        } else if str_eq(s, "list") || str_eq(s, "ls") {
            ShellCommand::List
        } else if str_eq(s, "pwd") {
            ShellCommand::Pwd
        } else if begins_with(&cs, "cd ") {
            proof {
                reveal_strlit("cd ");
            }
            ShellCommand::Cd(trim(rest_of(&cs, 3).as_str()))
        } else if begins_with(&cs, "show ") {
            proof {
                reveal_strlit("show ");
            }
            ShellCommand::Show(trim(rest_of(&cs, 5).as_str()))
        } else if begins_with(&cs, "inspect ") {
            proof {
                reveal_strlit("inspect ");
            }
            ShellCommand::Inspect(trim(rest_of(&cs, 8).as_str()))
        } else {
            ShellCommand::Unknown(t)
        }
    }

    /// The lines of the shell's help.
    pub fn show_shell_help() -> (r: Vec<OutputLine>)
        ensures
            lines_view(r@) == shell_help_lines(),
    {
        let mut out: Vec<OutputLine> = Vec::new();
        emit(&mut out, OutputLine::Subsection("Available Commands".to_owned()));
        emit(&mut out, OutputLine::Blank);
        emit(&mut out, OutputLine::Dimmed("  help              - Show this help message".to_owned()));
        emit(&mut out, OutputLine::Dimmed("  list, ls          - List all projects".to_owned()));
        emit(&mut out, OutputLine::Dimmed("  pwd               - Print current directory".to_owned()));
        emit(&mut out, OutputLine::Dimmed("  cd <path>         - Change directory".to_owned()));
        emit(&mut out, OutputLine::Dimmed("  show <project>    - Show project details".to_owned()));
        emit(&mut out, OutputLine::Dimmed("  inspect <path>    - Inspect environment details".to_owned()));
        emit(&mut out, OutputLine::Dimmed("  exit, quit        - Exit the shell".to_owned()));
        assert(lines_view(out@) =~= shell_help_lines());
        out
    }

    /// The lines that list the projects `projects`.
    pub fn project_list(projects: &Vec<ProjectReference>) -> (r: Vec<OutputLine>)
        ensures
            lines_view(r@) == project_list_lines(projects@),
    {
        let mut out: Vec<OutputLine> = Vec::new();
        if projects.len() == 0 {
            emit(&mut out, OutputLine::Dimmed("No projects found.".to_owned()));
            assert(lines_view(out@) =~= project_list_lines(projects@));
            return out;
        }
        emit(&mut out, OutputLine::Subsection("Projects".to_owned()));
        emit(&mut out, OutputLine::Blank);
        let ghost head = lines_view(out@);
        let ghost items = projects@.map_values(
            |p: ProjectReference| LineView::Info("• "@ + p.name@ + " ("@ + p.kind@ + ") - "@ + p.path@),
        );
        let mut i: usize = 0;
        while i < projects.len()
            invariant
                i <= projects.len(),
                items == projects@.map_values(
                    |p: ProjectReference| LineView::Info("• "@ + p.name@ + " ("@ + p.kind@ + ") - "@ + p.path@),
                ),
                lines_view(out@) == head + items.take(i as int),
            decreases projects.len() - i,
        {
            let p = &projects[i];
            let a = concat3("• ", p.name.as_str(), " (");
            let b = concat3(a.as_str(), p.kind.as_str(), ") - ");
            emit(&mut out, OutputLine::Info(concat(b.as_str(), p.path.as_str())));
            assert(items.take(i + 1) =~= items.take(i as int).push(items[i as int]));
            i = i + 1;
        }
        assert(items.take(items.len() as int) =~= items);
        assert(lines_view(out@) =~= project_list_lines(projects@));
        out
    }

    /// The shell's `list`: the projects of the infrastructure at `root`.
    pub fn shell_list_projects(fs: &MemoryFileSystem, warnings: &mut Vec<String>, root: &str) -> (r: Result<
        Vec<OutputLine>,
        String,
    >)
        ensures
            r matches Ok(ls) ==> exists|refs: Seq<ProjectReference>|
                #[trigger] all_found_projects(fs@, join_spec(root@, "projects"@), root@, refs) && lines_view(ls@)
                    == project_list_lines(refs),
            !fs_has(fs@, join_spec(root@, "projects"@)) ==> (r matches Ok(ls) && lines_view(ls@)
                == seq![LineView::Dimmed("No projects found."@)]),
    {
        let projects = match CollectionDiscovery::discover_projects(fs, warnings, root) {
            Ok(p) => p,
            Err(e) => {
                return Err(e);
            },
        };
        let ls = Self::project_list(&projects);
        assert(all_found_projects(fs@, join_spec(root@, "projects"@), root@, projects@));
        Ok(ls)
    }

    /// The lines that show the project `p` of the infrastructure at `root`.
    pub fn project_show(fs: &MemoryFileSystem, root: &str, p: &ProjectReference) -> (r: Vec<OutputLine>)
        ensures
            lines_view(r@) == project_show_lines(fs@, root@, *p),
    {
        let mut out: Vec<OutputLine> = Vec::new();
        emit(&mut out, OutputLine::Subsection(p.name.clone()));
        emit(&mut out, OutputLine::Blank);
        emit(&mut out, OutputLine::KeyValue("Name".to_owned(), p.name.clone()));
        emit(&mut out, OutputLine::KeyValue("Kind".to_owned(), p.kind.clone()));
        emit(&mut out, OutputLine::KeyValue("Path".to_owned(), p.path.clone()));
        let ghost head = lines_view(out@);
        let project_dir = join(root, p.path.as_str());
        let envs = join(project_dir.as_str(), "environments");
        match fs.read_dir(envs.as_str()) {
            Ok(dirs) => {
                emit(&mut out, OutputLine::Blank);
                emit(&mut out, OutputLine::Dimmed("Environments:".to_owned()));
                let ghost mid = lines_view(out@);
                let ghost dv = views_of_strings(dirs@);
                let ghost items = dv.map_values(|d: Seq<char>| LineView::Dimmed("  • "@ + file_name_spec(d)));
                let mut i: usize = 0;
                while i < dirs.len()
                    invariant
                        i <= dirs.len(),
                        dv == views_of_strings(dirs@),
                        items == dv.map_values(|d: Seq<char>| LineView::Dimmed("  • "@ + file_name_spec(d))),
                        lines_view(out@) == mid + items.take(i as int),
                    decreases dirs.len() - i,
                {
                    emit(&mut out, OutputLine::Dimmed(concat("  • ", file_name(dirs[i].as_str()).as_str())));
                    assert(items.take(i + 1) =~= items.take(i as int).push(items[i as int]));
                    i = i + 1;
                }
                assert(items.take(items.len() as int) =~= items);
                assert(dv == children_spec(fs@, envs@));
            },
            Err(_) => {},
        }
        assert(lines_view(out@) =~= project_show_lines(fs@, root@, *p));
        out
    }

    /// The shell's `show`: the project named `project_name` of the
    /// infrastructure at `root`, which must be there.
    pub fn shell_show_project(fs: &MemoryFileSystem, warnings: &mut Vec<String>, root: &str, project_name: &str) -> (r:
        Result<Vec<OutputLine>, String>)
        ensures
            r matches Ok(ls) ==> exists|refs: Seq<ProjectReference>|
                #[trigger] all_found_projects(fs@, join_spec(root@, "projects"@), root@, refs) && project_index(
                    refs,
                    project_name@,
                ) >= 0 && lines_view(ls@) == project_show_lines(fs@, root@, refs[project_index(refs, project_name@)]),
            !fs_has(fs@, join_spec(root@, "projects"@)) ==> (r matches Err(e) && e@ == "Project not found"@),
    {
        let projects = match CollectionDiscovery::discover_projects(fs, warnings, root) {
            Ok(p) => p,
            Err(e) => {
                return Err(e);
            },
        };
        assert(all_found_projects(fs@, join_spec(root@, "projects"@), root@, projects@));
        let mut i: usize = 0;
        while i < projects.len()
            invariant
                i <= projects.len(),
                project_index(projects@.take(i as int), project_name@) == -1,
                all_found_projects(fs@, join_spec(root@, "projects"@), root@, projects@),
                !fs_has(fs@, join_spec(root@, "projects"@)) ==> projects@.len() == 0,
            decreases projects.len() - i,
        {
            assert(projects@.take(i + 1).drop_last() =~= projects@.take(i as int));
            assert(projects@.take(i + 1).last() == projects@[i as int]);
            if str_eq(projects[i].name.as_str(), project_name) {
                proof {
                    assert(project_index(projects@.take(i + 1), project_name@) == i);
                    lemma_project_index_prefix(projects@, i + 1, project_name@);
                }
                return Ok(Self::project_show(fs, root, &projects[i]));
            }
            i = i + 1;
        }
        assert(projects@.take(projects.len() as int) =~= projects@);
        Err("Project not found".to_owned())
    }
}

/// The views of a list of strings.
pub open spec fn views_of_strings(v: Seq<String>) -> Seq<Seq<char>> {
    v.map_values(|s: String| s@)
}

/// Once a prefix of `refs` has a project named `name`, `refs` finds it
/// there.
proof fn lemma_project_index_prefix(refs: Seq<ProjectReference>, n: int, name: Seq<char>)
    requires
        0 <= n <= refs.len(),
        project_index(refs.take(n), name) >= 0,
    ensures
        project_index(refs, name) == project_index(refs.take(n), name),
        project_index(refs, name) < n,
    decreases refs.len() - n,
{
    lemma_project_index_bound(refs.take(n), name);
    if n < refs.len() {
        assert(refs.take(n + 1).drop_last() =~= refs.take(n));
        lemma_project_index_prefix(refs, n + 1, name);
    } else {
        assert(refs.take(n) =~= refs);
    }
}

/// `project_index` is `-1` or an index of `refs`.
proof fn lemma_project_index_bound(refs: Seq<ProjectReference>, name: Seq<char>)
    ensures
        -1 <= project_index(refs, name) < refs.len(),
    decreases refs.len(),
{
    if refs.len() > 0 {
        lemma_project_index_bound(refs.drop_last(), name);
    }
}

} // verus!
