//! The `find` command: looks up projects of an infrastructure by name or by
//! kind, and describes the one picked.

use vstd::prelude::*;
use crate::manager::{derefs, projects_named, projects_of_kind, CollectionManager};
use crate::output::{emit, lines_view, LineView, OutputLine};
use crate::paths::join_spec;
use crate::resources::ProjectReference;
use crate::text::{concat, decimal, lowercase, str_eq, usize_to_string, views_of};

verus! {

broadcast use vstd::string::group_string_axioms;

/// The `find` command.
pub struct FindCommand;

/// The projects a search asks for: those whose name holds `name` (ignoring
/// case) when it is given, else those of the kind `kind`, else all.
pub open spec fn search_result(projects: Seq<ProjectReference>, name: Option<Seq<char>>, kind: Option<Seq<char>>) -> Seq<
    ProjectReference,
> {
    match name {
        Some(n) => projects_named(projects, lowercase(n)),
        None => match kind {
            Some(k) => projects_of_kind(projects, k),
            None => projects,
        },
    }
}

/// How a project is offered for choice: its name, then its kind in
/// brackets.
pub open spec fn option_label(p: ProjectReference) -> Seq<char> {
    p.name@ + " ("@ + p.kind@ + ")"@
}

/// The first index of `x` in `s`, or nothing.
pub open spec fn first_index(s: Seq<Seq<char>>, x: Seq<char>) -> Option<int>
    decreases s.len(),
{
    if s.len() == 0 {
        None
    } else if s[0] == x {
        Some(0)
    } else {
        match first_index(s.drop_first(), x) {
            Some(i) => Some(i + 1),
            None => None,
        }
    }
}

/// The lines that open the results: none found, or how many were found in
/// which infrastructure.
pub open spec fn header_lines(count: nat, infrastructure: Seq<char>) -> Seq<LineView> {
    if count == 0 {
        seq![LineView::Info("No projects found."@)]
    } else {
        seq![
            LineView::Info("Found "@ + decimal(count) + " project(s) in collection '"@ + infrastructure + "':"@),
            LineView::Blank,
        ]
    }
}

/// The lines that describe the project `p`, whose directory is `full_path`.
pub open spec fn detail_lines(p: ProjectReference, full_path: Seq<char>) -> Seq<LineView> {
    seq![
        LineView::Blank,
        LineView::Info("Project Details:"@),
        LineView::Info("  Name: "@ + p.name@),
        LineView::Info("  Kind: "@ + p.kind@),
        LineView::Info("  Path: "@ + p.path@),
        LineView::Info("  Full path: "@ + full_path),
    ]
}

impl FindCommand {
    /// The projects of `manager` that the search asks for: those whose name
    /// holds `name` (ignoring case) when it is given, else those of the kind
    /// `kind` (ignoring ASCII case), else all of them.
    pub fn execute<'a>(manager: &'a CollectionManager, name: Option<&str>, kind: Option<&str>) -> (r: Vec<
        &'a ProjectReference,
    >)
        ensures
            derefs(r@) == search_result(
                manager.projects_spec(),
                match name {
                    Some(n) => Some(n@),
                    None => None,
                },
                match kind {
                    Some(k) => Some(k@),
                    None => None,
                },
            ),
    {
        match name {
            Some(n) => manager.find_by_name(n),
            None => match kind {
                Some(k) => manager.find_by_kind(k),
                None => {
                    let all = manager.get_all_projects();
                    let mut found: Vec<&ProjectReference> = Vec::new();
                    let mut i: usize = 0;
                    while i < all.len()
                        invariant
                            0 <= i <= all.len(),
                            all@ == manager.projects_spec(),
                            derefs(found@) == all@.take(i as int),
                        decreases all.len() - i,
                    {
                        let ghost before = found@;
                        found.push(&all[i]);
                        assert(derefs(found@) =~= derefs(before).push(all@[i as int]));
                        assert(derefs(found@) =~= all@.take(i + 1));
                        i = i + 1;
                    }
                    assert(all@.take(all.len() as int) =~= all@);
                    found
                },
            },
        }
    }

    /// How each of `projects` is offered for choice, in order.
    pub fn project_options(projects: &Vec<&ProjectReference>) -> (r: Vec<String>)
        ensures
            views_of(r@) == derefs(projects@).map_values(|p: ProjectReference| option_label(p)),
    {
        let mut out: Vec<String> = Vec::new();
        let mut i: usize = 0;
        while i < projects.len()
            invariant
                0 <= i <= projects.len(),
                views_of(out@) == derefs(projects@).map_values(|p: ProjectReference| option_label(p)).take(
                    i as int,
                ),
            decreases projects.len() - i,
        {
            let p = projects[i];
            let mut label = p.name.clone();
            label.append(" (");
            label.append(p.kind.as_str());
            label.append(")");
            let ghost before = out@;
            let ghost lv = label@;
            assert(lv == option_label(derefs(projects@)[i as int]));
            out.push(label);
            assert(views_of(out@) =~= views_of(before).push(lv));
            assert(views_of(out@) =~= derefs(projects@).map_values(|p: ProjectReference| option_label(p)).take(
                i + 1,
            ));
            i = i + 1;
        }
        assert(derefs(projects@).map_values(|p: ProjectReference| option_label(p)).take(projects.len() as int)
            =~= derefs(projects@).map_values(|p: ProjectReference| option_label(p)));
        out
    }

    /// The index of the first of `options` that is `selected`, if any.
    pub fn position_of(options: &Vec<String>, selected: &str) -> (r: Option<usize>)
        ensures
            match r {
                Some(i) => first_index(views_of(options@), selected@) == Some(i as int),
                None => first_index(views_of(options@), selected@) is None,
            },
    {
        let ghost ov = views_of(options@);
        let mut i: usize = 0;
        assert(ov.skip(0) =~= ov);
        while i < options.len()
            invariant
                0 <= i <= options.len(),
                ov == views_of(options@),
                first_index(ov, selected@) == match first_index(ov.skip(i as int), selected@) {
                    Some(j) => Some(j + i),
                    None => None,
                },
            decreases options.len() - i,
        {
            assert(ov.skip(i as int)[0] == ov[i as int]);
            if str_eq(options[i].as_str(), selected) {
                return Some(i);
            }
            assert(ov.skip(i as int).drop_first() =~= ov.skip(i + 1));
            i = i + 1;
        }
        assert(ov.skip(options.len() as int) =~= Seq::<Seq<char>>::empty());
        None
    }

    /// The lines that open the results of a search that found `count`
    /// projects in the infrastructure of `manager`.
    pub fn results_header(manager: &CollectionManager, count: usize) -> (r: Vec<OutputLine>)
        ensures
            lines_view(r@) == header_lines(count as nat, manager.infrastructure_spec().metadata.name@),
    {
        let mut out: Vec<OutputLine> = Vec::new();
        assert(lines_view(out@) =~= Seq::<LineView>::empty());
        if count == 0 {
            emit(&mut out, OutputLine::Info("No projects found.".to_owned()));
            assert(lines_view(out@) =~= header_lines(count as nat, manager.infrastructure_spec().metadata.name@));
        } else {
            let mut line = "Found ".to_owned();
            line.append(usize_to_string(count).as_str());
            line.append(" project(s) in collection '");
            line.append(manager.get_metadata().name.as_str());
            line.append("':");
            emit(&mut out, OutputLine::Info(line));
            emit(&mut out, OutputLine::Blank);
            assert(lines_view(out@) =~= header_lines(count as nat, manager.infrastructure_spec().metadata.name@));
        }
        out
    }

    /// The lines that describe `project`, one of the projects of `manager`.
    pub fn project_details(manager: &CollectionManager, project: &ProjectReference) -> (r: Vec<OutputLine>)
        ensures
            lines_view(r@) == detail_lines(*project, join_spec(manager.root_spec(), project.path@)),
    {
        let full_path = manager.get_project_path(project);
        let mut out: Vec<OutputLine> = Vec::new();
        assert(lines_view(out@) =~= Seq::<LineView>::empty());
        emit(&mut out, OutputLine::Blank);
        emit(&mut out, OutputLine::Info("Project Details:".to_owned()));
        emit(&mut out, OutputLine::Info(concat("  Name: ", project.name.as_str())));
        emit(&mut out, OutputLine::Info(concat("  Kind: ", project.kind.as_str())));
        emit(&mut out, OutputLine::Info(concat("  Path: ", project.path.as_str())));
        emit(&mut out, OutputLine::Info(concat("  Full path: ", full_path.as_str())));
        assert(lines_view(out@) =~= detail_lines(*project, join_spec(manager.root_spec(), project.path@)));
        out
    }
}

} // verus!
