//! The `import` command: brings an existing Terraform/OpenTofu project
//! under management. The analysis of the source directory is done outside;
//! what is shown of it, the project made of it and the steps that follow
//! are decided here.

use vstd::prelude::*;
use crate::output::{emit, lines_view, LineView, OutputLine};
use crate::text::{concat, concat3, decimal, join_strings, joined, split, split_spec, str_eq, usize_to_string, views_of};

verus! {

broadcast use vstd::string::group_string_axioms;

/// The options of importing a project directory.
pub struct ProjectImportArgs {
    /// The Terraform/OpenTofu project directory.
    pub source_path: String,
    /// The project's name (the directory's name by default).
    pub name: Option<String>,
    pub environment: Option<String>,
    pub template_pack: Option<String>,
    pub template_name: Option<String>,
    /// How files are brought over: copy, move, symlink, template_convert.
    pub file_strategy: String,
    /// Whether the state file is imported too.
    pub import_state: bool,
    /// Show what would happen, change nothing.
    pub dry_run: bool,
    /// Ask nothing, take the defaults.
    pub yes: bool,
}

/// The options of importing a state file.
pub struct StateImportArgs {
    pub state_path: String,
    pub name: String,
    pub environment: Option<String>,
    pub source_dir: Option<String>,
    pub dry_run: bool,
}

/// The options of importing resources by address.
pub struct ResourceImportArgs {
    /// Comma-separated resource addresses.
    pub addresses: String,
    pub project: String,
    pub environment: String,
    pub id: Option<String>,
}

/// The options of importing many projects from a configuration file.
pub struct BulkImportArgs {
    pub config_path: String,
    pub dry_run: bool,
    /// How many imports run at once.
    pub parallel: usize,
}

/// What is to be imported.
pub enum ImportSubcommand {
    Project(ProjectImportArgs),
    State(StateImportArgs),
    Resource(ResourceImportArgs),
    Bulk(BulkImportArgs),
}

/// The `import` command.
pub struct ImportCommand {
    pub subcommand: ImportSubcommand,
}

/// A provider that a project uses, and its version if pinned.
pub struct ProviderInfo {
    pub name: String,
    pub version: Option<String>,
}

/// What the analysis of a project directory found: its `.tf` files,
/// whether it has a state file, the types of the resources in the state
/// (one per resource) where it could be read, and the providers.
pub struct ProjectAnalysis {
    pub terraform_files: Vec<String>,
    pub has_state: bool,
    pub resources: Option<Vec<String>>,
    pub providers: Vec<ProviderInfo>,
}

/// The project that an import creates.
pub struct ProjectConfig {
    pub name: String,
    pub environment: String,
    pub source_path: String,
    pub file_strategy: String,
    pub import_state: bool,
}

/// Imports one project directory.
pub struct ProjectImporter {
    pub args: ProjectImportArgs,
}

/// An import waiting to go ahead: the project it creates, and whether it
/// goes ahead where that is already decided (else the user is asked
/// `confirm_question()`).
pub struct ImportPlan {
    pub config: ProjectConfig,
    pub decision: Option<bool>,
}

/// The index of the first entry of `t` for `x`, or `-1`.
pub open spec fn tally_index(t: Seq<(Seq<char>, nat)>, x: Seq<char>) -> int
    decreases t.len(),
{
    if t.len() == 0 {
        -1
    } else if t.last().0 == x && tally_index(t.drop_last(), x) < 0 {
        t.len() - 1
    } else {
        tally_index(t.drop_last(), x)
    }
}

/// Each of `ts` with the number of times it occurs, in the order in which
/// they first occur.
pub open spec fn tally(ts: Seq<Seq<char>>) -> Seq<(Seq<char>, nat)>
    decreases ts.len(),
{
    if ts.len() == 0 {
        Seq::empty()
    } else {
        let t = tally(ts.drop_last());
        let k = tally_index(t, ts.last());
        if k >= 0 {
            t.update(k, (ts.last(), t[k].1 + 1))
        } else {
            t.push((ts.last(), 1nat))
        }
    }
}

/// How a provider is shown: its name and version.
pub open spec fn provider_text(p: ProviderInfo) -> Seq<char> {
    p.name@ + " ("@ + match p.version {
        Some(v) => v@,
        None => "unknown"@,
    } + ")"@
}

/// How the providers `ps` are shown.
pub open spec fn provider_texts(ps: Seq<ProviderInfo>) -> Seq<Seq<char>> {
    ps.map_values(|p: ProviderInfo| provider_text(p))
}

/// Named counts as plain values.
pub open spec fn counts_view(t: Seq<(String, usize)>) -> Seq<(Seq<char>, nat)> {
    t.map_values(|e: (String, usize)| (e.0@, e.1 as nat))
}

/// The lines that show named counts.
pub open spec fn count_lines(t: Seq<(Seq<char>, nat)>) -> Seq<LineView> {
    t.map_values(|e: (Seq<char>, nat)| LineView::Info("     - "@ + e.0 + " ("@ + decimal(e.1) + ")"@))
}

/// The lines that show an analysis.
pub open spec fn analysis_lines(a: ProjectAnalysis) -> Seq<LineView> {
    seq![LineView::Info("   ✓ Found "@ + decimal(a.terraform_files@.len()) + " .tf files"@)] + (if a.has_state {
        seq![LineView::Info("   ✓ Found terraform.tfstate"@)] + match a.resources {
            Some(rs) => seq![
                LineView::Info(
                    "   ✓ Detected "@ + decimal(rs@.len()) + " resources across "@ + decimal(a.providers@.len())
                        + " providers"@,
                ),
            ],
            None => Seq::empty(),
        }
    } else {
        Seq::empty()
    }) + match a.resources {
        Some(rs) => seq![LineView::Info("\n📊 Analysis Summary:"@)] + (if a.providers@.len() > 0 {
            seq![
                LineView::Info(
                    "   Providers: "@ + joined(provider_texts(a.providers@), ", "@),
                ),
            ]
        } else {
            Seq::empty()
        }) + (if rs@.len() > 0 {
            seq![LineView::Info("   Resources:"@)] + count_lines(tally(views_of(rs@)))
        } else {
            Seq::empty()
        }),
        None => Seq::empty(),
    }
}

/// The components of a path that name something: no empty ones and no `.`.
pub open spec fn named_components(p: Seq<char>) -> Seq<Seq<char>> {
    split_spec(p, '/').filter(|c: Seq<char>| c.len() > 0 && c != "."@)
}

/// The last component of the path `p`, as `Path::file_name` gives it: none
/// where the path has none, or ends in `..`.
pub open spec fn path_file_name(p: Seq<char>) -> Option<Seq<char>> {
    let cs = named_components(p);
    if cs.len() == 0 || cs.last() == ".."@ {
        None
    } else {
        Some(cs.last())
    }
}

/// The project that importing with `args` creates.
pub open spec fn config_of(args: ProjectImportArgs, c: ProjectConfig) -> bool {
    &&& c.name@ == match args.name {
        Some(n) => n@,
        None => match path_file_name(args.source_path@) {
            Some(f) => f,
            None => "imported-project"@,
        },
    }
    &&& c.environment@ == match args.environment {
        Some(e) => e@,
        None => "production"@,
    }
    &&& c.source_path@ == args.source_path@
    &&& c.file_strategy@ == args.file_strategy@
    &&& c.import_state == args.import_state
}

/// Where the environment of an imported project goes.
pub open spec fn import_base(c: ProjectConfig) -> Seq<char> {
    "collection/projects/"@ + c.name@ + "/environments/"@ + c.environment@
}

/// The lines that show what importing `c` creates.
pub open spec fn preview_lines(c: ProjectConfig) -> Seq<LineView> {
    let base = import_base(c);
    seq![
        LineView::Info("\n📝 Preview:"@),
        LineView::Info("   Will create:"@),
        LineView::Info("   ✓ collection/projects/"@ + c.name@ + "/.pmp.project.yaml"@),
        LineView::Info("   ✓ "@ + base + "/.pmp.environment.yaml"@),
        LineView::Info("   ✓ "@ + base + "/*.tf (terraform files)"@),
    ] + (if c.import_state {
        seq![LineView::Info("   ✓ "@ + base + "/terraform.tfstate"@)]
    } else {
        Seq::empty()
    }) + seq![LineView::Info("   ✓ "@ + base + "/_common.tf"@)]
}

/// The question asked before an import goes ahead.
pub open spec fn confirm_question() -> Seq<char> {
    "? Proceed with import?"@
}

/// Whether an import with `args` goes ahead without asking, and how:
/// a dry run never does, `yes` always does; else the user is asked.
pub open spec fn decided(args: ProjectImportArgs) -> Option<bool> {
    if args.yes || args.dry_run {
        Some(!args.dry_run)
    } else {
        None
    }
}

/// The lines of carrying out an import.
pub open spec fn execute_lines(args: ProjectImportArgs) -> Seq<LineView> {
    if args.dry_run {
        seq![LineView::Info("Dry-run mode: no changes made"@)]
    } else {
        seq![LineView::Info("Importing project..."@)]
    }
}

/// The lines that say what to do after importing `c`.
pub open spec fn next_steps_lines(args: ProjectImportArgs, c: ProjectConfig) -> Seq<LineView> {
    seq![
        LineView::Info("\n   Next steps:"@),
        LineView::Info("   1. Review generated files in: collection/projects/"@ + c.name@),
        LineView::Info("   2. Run 'pmp preview' to verify state"@),
        LineView::Info("   3. Run 'pmp apply' to manage with PMP"@),
    ] + (if args.file_strategy@ == "copy"@ {
        seq![LineView::Info("\n   ⚠️  Note: Original files remain at "@ + args.source_path@)]
    } else {
        Seq::empty()
    })
}

/// Whether `ls` and `res` are the start of importing with `args`: the
/// analysis `a` shown and the preview, then the plan waiting for the
/// decision; or the refusal of a source that does not exist.
pub open spec fn import_started(
    args: ProjectImportArgs,
    exists: bool,
    a: ProjectAnalysis,
    ls: Seq<LineView>,
    res: Result<ImportPlan, String>,
) -> bool {
    let head = seq![LineView::Info("🔍 Analyzing Terraform project..."@)];
    if !exists {
        ls == head && (res matches Err(e) && e@ == "Source path does not exist: "@ + args.source_path@)
    } else {
        res matches Ok(plan) && config_of(args, plan.config) && plan.decision == decided(args) && ls == head
            + analysis_lines(a) + preview_lines(plan.config)
    }
}

/// Whether `ls` are the lines of finishing the import `plan` with `args`,
/// where the user answered `answer` if asked.
pub open spec fn import_finished(args: ProjectImportArgs, plan: ImportPlan, answer: bool, ls: Seq<LineView>) -> bool {
    let go = match plan.decision {
        Some(d) => d,
        None => answer,
    };
    if !go {
        ls == seq![LineView::Info("Import cancelled"@)]
    } else {
        ls == execute_lines(args) + seq![LineView::Success("✅ Import completed successfully!"@)] + next_steps_lines(
            args,
            plan.config,
        )
    }
}

/// The index of the entry of `t` for `x`, if there is one.
fn find_tally(t: &Vec<(String, usize)>, x: &str) -> (r: Option<usize>)
    ensures
        r matches Some(k) ==> k == tally_index(counts_view(t@), x@) && k
            < t@.len(),
        r is None ==> tally_index(counts_view(t@), x@) == -1,
{
    let ghost tv = counts_view(t@);
    let mut i: usize = 0;
    while i < t.len()
        invariant
            i <= t.len(),
            tv == counts_view(t@),
            tally_index(tv.take(i as int), x@) == -1,
        decreases t.len() - i,
    {
        proof {
            assert(tv.take(i + 1).drop_last() =~= tv.take(i as int));
            assert(tv.take(i + 1).last() == tv[i as int]);
        }
        if str_eq(t[i].0.as_str(), x) {
            proof {
                lemma_tally_index_prefix(tv, i as int + 1, x@);
            }
            return Some(i);
        }
        i = i + 1;
    }
    proof {
        assert(tv.take(t.len() as int) =~= tv);
    }
    None
}

/// Once a prefix of `t` has an entry for `x`, `t` finds it there.
proof fn lemma_tally_index_prefix(t: Seq<(Seq<char>, nat)>, n: int, x: Seq<char>)
    requires
        0 <= n <= t.len(),
        tally_index(t.take(n), x) >= 0,
    ensures
        tally_index(t, x) == tally_index(t.take(n), x),
    decreases t.len() - n,
{
    if n < t.len() {
        assert(t.take(n + 1).drop_last() =~= t.take(n));
        lemma_tally_index_prefix(t, n + 1, x);
    } else {
        assert(t.take(n) =~= t);
    }
}

/// `tally_index` is `-1` or the index of an entry for `x`.
proof fn lemma_tally_index(t: Seq<(Seq<char>, nat)>, x: Seq<char>)
    ensures
        -1 <= tally_index(t, x) < t.len(),
        tally_index(t, x) >= 0 ==> t[tally_index(t, x)].0 == x,
    decreases t.len(),
{
    if t.len() > 0 {
        lemma_tally_index(t.drop_last(), x);
    }
}

/// Every count of `tally(ts)` is at most the number of `ts`.
proof fn lemma_tally_bound(ts: Seq<Seq<char>>)
    ensures
        tally(ts).len() <= ts.len(),
        forall|j: int| 0 <= j < tally(ts).len() ==> (#[trigger] tally(ts)[j]).1 <= ts.len(),
    decreases ts.len(),
{
    if ts.len() > 0 {
        lemma_tally_bound(ts.drop_last());
        lemma_tally_index(tally(ts.drop_last()), ts.last());
    }
}

/// The text of `p` as shown.
fn provider_string(p: &ProviderInfo) -> (r: String)
    ensures
        r@ == provider_text(*p),
{
    let version = match &p.version {
        Some(v) => v.as_str(),
        None => "unknown",
    };
    let a = concat3(p.name.as_str(), " (", version);
    concat(a.as_str(), ")")
}

/// The lines of a list of named counts.
fn tally_lines(out: &mut Vec<OutputLine>, t: &Vec<(String, usize)>)
    ensures
        lines_view(final(out)@) == lines_view(old(out)@) + count_lines(counts_view(t@)),
{
    let ghost start = lines_view(out@);
    let ghost tl = count_lines(counts_view(t@));
    let mut i: usize = 0;
    while i < t.len()
        invariant
            i <= t.len(),
            tl == count_lines(counts_view(t@)),
            lines_view(out@) == start + tl.take(i as int),
        decreases t.len() - i,
    {
        let a = concat3("     - ", t[i].0.as_str(), " (");
        let b = concat3(a.as_str(), usize_to_string(t[i].1).as_str(), ")");
        emit(out, OutputLine::Info(b));
        assert(lines_view(out@) =~= start + tl.take(i + 1));
        i = i + 1;
    }
    assert(tl.take(t.len() as int) =~= tl);
}

/// The named components among the first `n + 1` parts `pv` extend those
/// among the first `n` by the part `n` where it names something.
proof fn lemma_components_step(pv: Seq<Seq<char>>, n: int)
    requires
        0 <= n < pv.len(),
    ensures
        pv.take(n + 1).filter(|c: Seq<char>| c.len() > 0 && c != "."@) == if pv[n].len() > 0 && pv[n] != "."@ {
            pv.take(n).filter(|c: Seq<char>| c.len() > 0 && c != "."@).push(pv[n])
        } else {
            pv.take(n).filter(|c: Seq<char>| c.len() > 0 && c != "."@)
        },
{
    reveal(Seq::filter);
    assert(pv.take(n + 1).drop_last() =~= pv.take(n));
    assert(pv.take(n + 1).last() == pv[n]);
}

impl ProjectImporter {
    /// The lines that show the analysis `analysis`: the files found, and
    /// where the state could be read, its providers and how many resources
    /// of each type it holds (in the order the types first occur).
    pub fn display_analysis(analysis: &ProjectAnalysis) -> (r: Vec<OutputLine>)
        ensures
            lines_view(r@) == analysis_lines(*analysis),
    {
        let mut out: Vec<OutputLine> = Vec::new();
        let a = concat3("   ✓ Found ", usize_to_string(analysis.terraform_files.len()).as_str(), " .tf files");
        emit(&mut out, OutputLine::Info(a));
        if analysis.has_state {
            emit(&mut out, OutputLine::Info("   ✓ Found terraform.tfstate".to_owned()));
            if let Some(rs) = &analysis.resources {
                let b = concat3("   ✓ Detected ", usize_to_string(rs.len()).as_str(), " resources across ");
                let c = concat3(b.as_str(), usize_to_string(analysis.providers.len()).as_str(), " providers");
                emit(&mut out, OutputLine::Info(c));
            }
        }
        let ghost first = lines_view(out@);
        if let Some(rs) = &analysis.resources {
            emit(&mut out, OutputLine::Info("\n📊 Analysis Summary:".to_owned()));
            if analysis.providers.len() > 0 {
                let mut texts: Vec<String> = Vec::new();
                let mut i: usize = 0;
                while i < analysis.providers.len()
                    invariant
                        i <= analysis.providers.len(),
                        views_of(texts@) == provider_texts(analysis.providers@.take(i as int)),
                    decreases analysis.providers.len() - i,
                {
                    let t = provider_string(&analysis.providers[i]);
                    let ghost tv = t@;
                    assert(tv == provider_text(analysis.providers@[i as int]));
                    let ghost before = texts@;
                    texts.push(t);
                    assert(views_of(texts@) =~= views_of(before).push(tv));
                    assert(analysis.providers@.take(i + 1) =~= analysis.providers@.take(i as int).push(analysis.providers@[i as int]));
                    assert(views_of(texts@) =~= provider_texts(analysis.providers@.take(i + 1)));
                    i = i + 1;
                }
                assert(analysis.providers@.take(analysis.providers.len() as int) =~= analysis.providers@);
                let joined_text = join_strings(&texts, ", ");
                emit(&mut out, OutputLine::Info(concat("   Providers: ", joined_text.as_str())));
            }
            if rs.len() > 0 {
                emit(&mut out, OutputLine::Info("   Resources:".to_owned()));
                let ghost rv = views_of(rs@);
                let mut counts: Vec<(String, usize)> = Vec::new();
                let mut i: usize = 0;
                while i < rs.len()
                    invariant
                        i <= rs.len(),
                        rv == views_of(rs@),
                        counts_view(counts@) == tally(rv.take(i as int)),
                    decreases rs.len() - i,
                {
                    let ghost tv = counts_view(counts@);
                    proof {
                        assert(rv.take(i + 1).drop_last() =~= rv.take(i as int));
                        assert(rv.take(i + 1).last() == rs@[i as int]@);
                        lemma_tally_bound(rv.take(i as int));
                    }
                    match find_tally(&counts, rs[i].as_str()) {
                        Some(k) => {
                            assert(tv[k as int].1 <= i);
                            let n = counts[k].1 + 1;
                            let key = counts[k].0.clone();
                            counts.set(k, (key, n));
                            assert(counts_view(counts@) =~= tally(
                                rv.take(i + 1),
                            )) by {
                                lemma_tally_index(tv, rs@[i as int]@);
                            }
                        },
                        None => {
                            counts.push((rs[i].clone(), 1));
                            assert(counts_view(counts@) =~= tally(
                                rv.take(i + 1),
                            ));
                        },
                    }
                    i = i + 1;
                }
                assert(rv.take(rs.len() as int) =~= rv);
                tally_lines(&mut out, &counts);
            }
        }
        assert(lines_view(out@) =~= analysis_lines(*analysis));
        out
    }

    /// The last component of the source directory, as `Path::file_name`
    /// gives it.
    pub fn source_file_name(p: &str) -> (r: Option<String>)
        ensures
            match r {
                Some(f) => path_file_name(p@) == Some(f@),
                None => path_file_name(p@) is None,
            },
    {
        let parts = split(p, '/');
        let ghost pv = views_of(parts@);
        let ghost named = |c: Seq<char>| c.len() > 0 && c != "."@;
        let mut kept: Vec<String> = Vec::new();
        let mut j: usize = 0;
        proof {
            reveal_strlit(".");
            reveal_strlit("..");
            reveal(Seq::filter);
        }
        while j < parts.len()
            invariant
                j <= parts.len(),
                pv == views_of(parts@),
                pv == split_spec(p@, '/'),
                views_of(kept@) == pv.take(j as int).filter(|c: Seq<char>| c.len() > 0 && c != "."@),
            decreases parts.len() - j,
        {
            proof {
                lemma_components_step(pv, j as int);
            }
            let part = &parts[j];
            if !part.as_str().is_empty() && !str_eq(part.as_str(), ".") {
                let ghost before = kept@;
                kept.push(part.clone());
                assert(views_of(kept@) =~= views_of(before).push(part@));
            }
            j = j + 1;
        }
        assert(pv.take(pv.len() as int) =~= pv);
        if kept.len() == 0 {
            return None;
        }
        let last = kept[kept.len() - 1].clone();
        assert(views_of(kept@).last() == last@);
        if str_eq(last.as_str(), "..") {
            None
        } else {
            Some(last)
        }
    }

    /// The project that the import creates: the given name (else the
    /// source directory's name, else `imported-project`) and environment
    /// (else `production`).
    pub fn get_project_config(&self) -> (r: ProjectConfig)
        ensures
            config_of(self.args, r),
    {
        let name = match &self.args.name {
            Some(n) => n.clone(),
            None => match Self::source_file_name(self.args.source_path.as_str()) {
                Some(f) => f,
                None => "imported-project".to_owned(),
            },
        };
        let environment = match &self.args.environment {
            Some(e) => e.clone(),
            None => "production".to_owned(),
        };
        ProjectConfig {
            name,
            environment,
            source_path: self.args.source_path.clone(),
            file_strategy: self.args.file_strategy.clone(),
            import_state: self.args.import_state,
        }
    }

    /// The lines that show what importing `config` creates.
    pub fn preview_import(config: &ProjectConfig) -> (r: Vec<OutputLine>)
        ensures
            lines_view(r@) == preview_lines(*config),
    {
        let mut out: Vec<OutputLine> = Vec::new();
        let a = concat3("collection/projects/", config.name.as_str(), "/environments/");
        let base = concat(a.as_str(), config.environment.as_str());
        emit(&mut out, OutputLine::Info("\n📝 Preview:".to_owned()));
        emit(&mut out, OutputLine::Info("   Will create:".to_owned()));
        emit(
            &mut out,
            OutputLine::Info(concat3("   ✓ collection/projects/", config.name.as_str(), "/.pmp.project.yaml")),
        );
        emit(&mut out, OutputLine::Info(concat3("   ✓ ", base.as_str(), "/.pmp.environment.yaml")));
        emit(&mut out, OutputLine::Info(concat3("   ✓ ", base.as_str(), "/*.tf (terraform files)")));
        if config.import_state {
            emit(&mut out, OutputLine::Info(concat3("   ✓ ", base.as_str(), "/terraform.tfstate")));
        }
        emit(&mut out, OutputLine::Info(concat3("   ✓ ", base.as_str(), "/_common.tf")));
        assert(lines_view(out@) =~= preview_lines(*config));
        out
    }

    /// Whether the import goes ahead without asking: never in a dry run,
    /// always with `yes`; `None` where the user is to be asked.
    pub fn confirm_import(&self) -> (r: Option<bool>)
        ensures
            r == decided(self.args),
    {
        if self.args.yes || self.args.dry_run {
            Some(!self.args.dry_run)
        } else {
            None
        }
    }

    /// The lines of carrying out the import.
    pub fn execute_import(&self) -> (r: Vec<OutputLine>)
        ensures
            lines_view(r@) == execute_lines(self.args),
    {
        let mut out: Vec<OutputLine> = Vec::new();
        if self.args.dry_run {
            emit(&mut out, OutputLine::Info("Dry-run mode: no changes made".to_owned()));
        } else {
            emit(&mut out, OutputLine::Info("Importing project...".to_owned()));
        }
        assert(lines_view(out@) =~= execute_lines(self.args));
        out
    }

    /// The lines that say what to do after importing `config`.
    pub fn display_next_steps(&self, config: &ProjectConfig) -> (r: Vec<OutputLine>)
        ensures
            lines_view(r@) == next_steps_lines(self.args, *config),
    {
        let mut out: Vec<OutputLine> = Vec::new();
        emit(&mut out, OutputLine::Info("\n   Next steps:".to_owned()));
        emit(
            &mut out,
            OutputLine::Info(concat("   1. Review generated files in: collection/projects/", config.name.as_str())),
        );
        emit(&mut out, OutputLine::Info("   2. Run 'pmp preview' to verify state".to_owned()));
        emit(&mut out, OutputLine::Info("   3. Run 'pmp apply' to manage with PMP".to_owned()));
        if str_eq(self.args.file_strategy.as_str(), "copy") {
            emit(
                &mut out,
                OutputLine::Info(concat("\n   ⚠️  Note: Original files remain at ", self.args.source_path.as_str())),
            );
        }
        assert(lines_view(out@) =~= next_steps_lines(self.args, *config));
        out
    }
}

impl ImportCommand {
    /// Starts importing the project directory of `args`, whose existence is
    /// `exists` and whose analysis is `analysis`: the lines shown up to the
    /// preview, and the import waiting for its decision.
    pub fn import_project(args: ProjectImportArgs, exists: bool, analysis: &ProjectAnalysis) -> (r: (
        Vec<OutputLine>,
        Result<ImportPlan, String>,
    ))
        ensures
            import_started(args, exists, *analysis, lines_view(r.0@), r.1),
    {
        let mut out: Vec<OutputLine> = Vec::new();
        emit(&mut out, OutputLine::Info("🔍 Analyzing Terraform project...".to_owned()));
        if !exists {
            let e = concat("Source path does not exist: ", args.source_path.as_str());
            assert(lines_view(out@) =~= seq![LineView::Info("🔍 Analyzing Terraform project..."@)]);
            return (out, Err(e));
        }
        let ghost head = lines_view(out@);
        assert(head =~= seq![LineView::Info("🔍 Analyzing Terraform project..."@)]);
        let importer = ProjectImporter { args };
        let mut shown = ProjectImporter::display_analysis(analysis);
        out.append(&mut shown);
        let config = importer.get_project_config();
        let mut preview = ProjectImporter::preview_import(&config);
        let ghost pv = lines_view(preview@);
        out.append(&mut preview);
        let decision = importer.confirm_import();
        assert(lines_view(out@) =~= head + analysis_lines(*analysis) + pv);
        (out, Ok(ImportPlan { config, decision }))
    }

    /// Finishes the import `plan` of `args`, where the user answered
    /// `answer` if asked: cancelled, or carried out with the steps that
    /// follow.
    pub fn finish_import(args: ProjectImportArgs, plan: &ImportPlan, answer: bool) -> (r: Vec<OutputLine>)
        ensures
            import_finished(args, *plan, answer, lines_view(r@)),
    {
        let go = match plan.decision {
            Some(d) => d,
            None => answer,
        };
        let mut out: Vec<OutputLine> = Vec::new();
        if !go {
            emit(&mut out, OutputLine::Info("Import cancelled".to_owned()));
            assert(lines_view(out@) =~= seq![LineView::Info("Import cancelled"@)]);
            return out;
        }
        let importer = ProjectImporter { args };
        let mut done = importer.execute_import();
        let ghost dv = lines_view(done@);
        out.append(&mut done);
        assert(lines_view(out@) =~= dv);
        emit(&mut out, OutputLine::Success("✅ Import completed successfully!".to_owned()));
        let mut next = importer.display_next_steps(&plan.config);
        let ghost nv = lines_view(next@);
        let ghost before = lines_view(out@);
        out.append(&mut next);
        assert(before =~= dv + seq![LineView::Success("✅ Import completed successfully!"@)]);
        assert(lines_view(out@) =~= before + nv);
        out
    }

    /// Runs the command up to the decision: a project directory is
    /// started (see `import_project`); the other kinds of import are not
    /// available.
    pub fn execute(self, exists: bool, analysis: &ProjectAnalysis) -> (r: (Vec<OutputLine>, Result<ImportPlan, String>))
        ensures
            match self.subcommand {
                ImportSubcommand::Project(args) => import_started(args, exists, *analysis, lines_view(r.0@), r.1),
                ImportSubcommand::State(_) => r.0@.len() == 0 && (r.1 matches Err(e) && e@
                    == "State import not yet implemented"@),
                ImportSubcommand::Resource(_) => r.0@.len() == 0 && (r.1 matches Err(e) && e@
                    == "Resource import not yet implemented"@),
                ImportSubcommand::Bulk(_) => r.0@.len() == 0 && (r.1 matches Err(e) && e@
                    == "Bulk import not yet implemented"@),
            },
    {
        match self.subcommand {
            ImportSubcommand::Project(args) => Self::import_project(args, exists, analysis),
            ImportSubcommand::State(_) => (Vec::new(), Err("State import not yet implemented".to_owned())),
            ImportSubcommand::Resource(_) => (Vec::new(), Err("Resource import not yet implemented".to_owned())),
            ImportSubcommand::Bulk(_) => (Vec::new(), Err("Bulk import not yet implemented".to_owned())),
        }
    }
}

} // verus!
