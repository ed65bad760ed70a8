//! The deployment audit log and state diffs: which entries to show and how
//! a diff between two states reads.

use vstd::prelude::*;
use crate::output::{emit, lines_view, LineView, OutputLine};
use crate::resources::EnvironmentResource;
use crate::text::{contains, decimal, has_substring, usize_to_string};

verus! {

broadcast use vstd::string::group_string_axioms;

/// Shows audit logs and state diffs.
pub struct AuditCommand;

/// How many resources one deployment added, changed and removed.
pub struct ChangesSummary {
    pub resources_added: usize,
    pub resources_modified: usize,
    pub resources_deleted: usize,
    pub total_changes: usize,
}

/// How a deployment ended.
pub enum AuditStatus {
    Success,
    Failed,
    Partial,
}

/// One deployment in the audit log.
pub struct AuditLogEntry {
    pub id: String,
    pub timestamp: String,
    pub project: String,
    pub environment: String,
    pub action: String,
    pub user: String,
    pub changes: ChangesSummary,
    pub status: AuditStatus,
}

/// What happened to a resource between two states.
pub enum ChangeType {
    Added,
    Modified,
    Deleted,
    Unchanged,
}

/// One attribute of a resource, before and after.
pub struct AttributeChange {
    pub attribute: String,
    pub old_value: Option<String>,
    pub new_value: Option<String>,
}

/// The change of one resource between two states.
pub struct ResourceDiff {
    pub resource_type: String,
    pub resource_name: String,
    pub change_type: ChangeType,
    pub attribute_changes: Vec<AttributeChange>,
}

/// The differences between two states of an environment.
pub struct StateDiff {
    pub project: String,
    pub environment: String,
    pub from_state: String,
    pub to_state: String,
    pub differences: Vec<ResourceDiff>,
}

/// The symbol shown for a deployment's status.
pub open spec fn status_icon_spec(s: AuditStatus) -> Seq<char> {
    match s {
        AuditStatus::Success => "✓"@,
        AuditStatus::Failed => "✗"@,
        AuditStatus::Partial => "⚠"@,
    }
}

/// The entries of `logs`, in order, whose action contains `filter` (all of
/// them without a filter).
pub open spec fn filtered_logs(logs: Seq<AuditLogEntry>, filter: Option<Seq<char>>) -> Seq<
    AuditLogEntry,
>
    decreases logs.len(),
{
    if logs.len() == 0 {
        Seq::empty()
    } else {
        let rest = filtered_logs(logs.drop_last(), filter);
        match filter {
            Some(f) => if has_substring(logs.last().action@, f) {
                rest.push(logs.last())
            } else {
                rest
            },
            None => rest.push(logs.last()),
        }
    }
}

/// The lines shown for one audit entry.
pub open spec fn entry_lines(e: AuditLogEntry) -> Seq<LineView> {
    seq![
        LineView::Dimmed("["@ + e.id@ + "] "@ + e.timestamp@),
        LineView::Dimmed(
            "  "@ + status_icon_spec(e.status) + " "@ + e.action@ + " - "@ + e.project@ + "/"@
                + e.environment@,
        ),
        LineView::Dimmed("  User: "@ + e.user@),
        LineView::Dimmed(
            "  Changes: +"@ + decimal(e.changes.resources_added as nat) + " ~"@ + decimal(
                e.changes.resources_modified as nat,
            ) + " -"@ + decimal(e.changes.resources_deleted as nat),
        ),
        LineView::Blank,
    ]
}

/// The lines shown for the entries `s`, one after another.
pub open spec fn entries_lines(s: Seq<AuditLogEntry>) -> Seq<LineView>
    decreases s.len(),
{
    if s.len() == 0 {
        Seq::empty()
    } else {
        entries_lines(s.drop_last()) + entry_lines(s.last())
    }
}

/// How many entries are shown: `limit`, or twenty.
pub open spec fn shown_count(limit: Option<usize>) -> nat {
    match limit {
        Some(n) => n as nat,
        None => 20,
    }
}

/// The audit log report: the entries whose action contains the filter, at
/// most `limit` of them, and a note of how many more there are.
pub open spec fn log_report(logs: Seq<AuditLogEntry>, filter: Option<Seq<char>>, limit: Option<usize>) -> Seq<
    LineView,
> {
    let f = filtered_logs(logs, filter);
    let n = shown_count(limit);
    let shown = if f.len() <= n {
        f
    } else {
        f.take(n as int)
    };
    if shown.len() == 0 {
        seq![LineView::Info("No audit logs found"@)]
    } else {
        let more = if f.len() > n {
            seq![
                LineView::Dimmed(
                    "... and "@ + decimal((f.len() - n) as nat) + " more entries (use --limit to see more)"@,
                ),
                LineView::Blank,
            ]
        } else {
            Seq::empty()
        };
        seq![LineView::Subsection("Recent Deployments"@), LineView::Blank] + entries_lines(shown) + more
            + seq![LineView::Success("Showing "@ + decimal(shown.len()) + " audit entries"@)]
    }
}

/// `v`, or `null` when there is none.
pub open spec fn or_null(v: Option<String>) -> Seq<char> {
    match v {
        Some(s) => s@,
        None => "null"@,
    }
}

/// The lines shown for the attributes of an added resource: those with a
/// new value.
pub open spec fn added_attr_lines(a: Seq<AttributeChange>) -> Seq<LineView>
    decreases a.len(),
{
    if a.len() == 0 {
        Seq::empty()
    } else {
        added_attr_lines(a.drop_last()) + match a.last().new_value {
            Some(v) => seq![LineView::Dimmed("    "@ + a.last().attribute@ + ": "@ + v@)],
            None => Seq::empty(),
        }
    }
}

/// The lines shown for the attributes of a changed resource.
pub open spec fn modified_attr_lines(a: Seq<AttributeChange>) -> Seq<LineView>
    decreases a.len(),
{
    if a.len() == 0 {
        Seq::empty()
    } else {
        modified_attr_lines(a.drop_last()) + seq![
            LineView::Dimmed(
                "    "@ + a.last().attribute@ + ": "@ + or_null(a.last().old_value) + " -> "@ + or_null(
                    a.last().new_value,
                ),
            ),
        ]
    }
}

/// The lines shown for one resource of a diff.
pub open spec fn resource_lines(d: ResourceDiff) -> Seq<LineView> {
    let name = d.resource_type@ + " "@ + d.resource_name@;
    match d.change_type {
        ChangeType::Added => seq![LineView::Dimmed("+ "@ + name)] + added_attr_lines(
            d.attribute_changes@,
        ) + seq![LineView::Blank],
        ChangeType::Modified => seq![LineView::Dimmed("~ "@ + name)] + modified_attr_lines(
            d.attribute_changes@,
        ) + seq![LineView::Blank],
        ChangeType::Deleted => seq![LineView::Dimmed("- "@ + name), LineView::Blank],
        ChangeType::Unchanged => seq![LineView::Blank],
    }
}

/// The lines shown for the resources `s`, one after another.
pub open spec fn resources_lines(s: Seq<ResourceDiff>) -> Seq<LineView>
    decreases s.len(),
{
    if s.len() == 0 {
        Seq::empty()
    } else {
        resources_lines(s.drop_last()) + resource_lines(s.last())
    }
}

/// Whether `c` is the change that `k` names (0 added, 1 changed, 2 removed).
pub open spec fn is_kind(c: ChangeType, k: nat) -> bool {
    (k == 0 && c is Added) || (k == 1 && c is Modified) || (k == 2 && c is Deleted)
}

/// How many resources of `s` changed in the way `k` names (0 added,
/// 1 changed, 2 removed).
pub open spec fn count_changes(s: Seq<ResourceDiff>, k: nat) -> nat
    decreases s.len(),
{
    if s.len() == 0 {
        0
    } else {
        count_changes(s.drop_last(), k) + if is_kind(s.last().change_type, k) {
            1nat
        } else {
            0nat
        }
    }
}

/// The text report of a state diff: each resource, then the counts.
pub open spec fn diff_report(d: StateDiff) -> Seq<LineView> {
    let s = d.differences@;
    seq![LineView::Subsection("Resource Changes"@), LineView::Blank] + resources_lines(s) + seq![
        LineView::Subsection("Summary"@),
        LineView::KeyValue("Resources Added"@, "+"@ + decimal(count_changes(s, 0))),
        LineView::KeyValue("Resources Modified"@, "~"@ + decimal(count_changes(s, 1))),
        LineView::KeyValue("Resources Deleted"@, "-"@ + decimal(count_changes(s, 2))),
        LineView::Blank,
        LineView::Success("Diff analysis complete"@),
    ]
}

/// A count of resources is at most the number of resources.
pub proof fn lemma_count_changes_bound(s: Seq<ResourceDiff>, k: nat)
    ensures
        count_changes(s, k) <= s.len(),
    decreases s.len(),
{
    if s.len() > 0 {
        lemma_count_changes_bound(s.drop_last(), k);
    }
}

/// The view of an optional string.
pub open spec fn opt_view(s: Option<&str>) -> Option<Seq<char>> {
    match s {
        Some(x) => Some(x@),
        None => None,
    }
}

fn status_icon(s: &AuditStatus) -> (r: &'static str)
    ensures
        r@ == status_icon_spec(*s),
{
    match s {
        AuditStatus::Success => "✓",
        AuditStatus::Failed => "✗",
        AuditStatus::Partial => "⚠",
    }
}

fn push_entry_lines(out: &mut Vec<OutputLine>, e: &AuditLogEntry)
    ensures
        lines_view(final(out)@) == lines_view(old(out)@) + entry_lines(*e),
{
    let ghost before = lines_view(out@);
    let mut l1 = "[".to_owned();
    l1.append(e.id.as_str());
    l1.append("] ");
    l1.append(e.timestamp.as_str());
    emit(out, OutputLine::Dimmed(l1));
    let mut l2 = "  ".to_owned();
    l2.append(status_icon(&e.status));
    l2.append(" ");
    l2.append(e.action.as_str());
    l2.append(" - ");
    l2.append(e.project.as_str());
    l2.append("/");
    l2.append(e.environment.as_str());
    emit(out, OutputLine::Dimmed(l2));
    let mut l3 = "  User: ".to_owned();
    l3.append(e.user.as_str());
    emit(out, OutputLine::Dimmed(l3));
    let mut l4 = "  Changes: +".to_owned();
    l4.append(usize_to_string(e.changes.resources_added).as_str());
    l4.append(" ~");
    l4.append(usize_to_string(e.changes.resources_modified).as_str());
    l4.append(" -");
    l4.append(usize_to_string(e.changes.resources_deleted).as_str());
    emit(out, OutputLine::Dimmed(l4));
    emit(out, OutputLine::Blank);
    assert(lines_view(out@) =~= before + entry_lines(*e));
}

fn or_null_text(v: &Option<String>) -> (r: &str)
    ensures
        r@ == or_null(*v),
{
    match v {
        Some(s) => s.as_str(),
        None => "null",
    }
}

fn push_resource_lines(out: &mut Vec<OutputLine>, d: &ResourceDiff)
    ensures
        lines_view(final(out)@) == lines_view(old(out)@) + resource_lines(*d),
{
    let ghost before = lines_view(out@);
    let mut name = d.resource_type.clone();
    name.append(" ");
    name.append(d.resource_name.as_str());
    match d.change_type {
        ChangeType::Added => {
            let mut l = "+ ".to_owned();
            l.append(name.as_str());
            emit(out, OutputLine::Dimmed(l));
            let ghost head = lines_view(out@);
            let a = &d.attribute_changes;
            let mut i: usize = 0;
            assert(a@.take(0) =~= Seq::<AttributeChange>::empty());
            while i < a.len()
                invariant
                    0 <= i <= a.len(),
                    lines_view(out@) == head + added_attr_lines(a@.take(i as int)),
                decreases a.len() - i,
            {
                assert(a@.take(i + 1).drop_last() =~= a@.take(i as int));
                assert(a@.take(i + 1).last() == a@[i as int]);
                match &a[i].new_value {
                    Some(v) => {
                        let mut t = "    ".to_owned();
                        t.append(a[i].attribute.as_str());
                        t.append(": ");
                        t.append(v.as_str());
                        emit(out, OutputLine::Dimmed(t));
                    },
                    None => {},
                }
                assert(lines_view(out@) =~= head + added_attr_lines(a@.take(i + 1)));
                i = i + 1;
            }
            assert(a@.take(a@.len() as int) =~= a@);
            emit(out, OutputLine::Blank);
        },
        ChangeType::Modified => {
            let mut l = "~ ".to_owned();
            l.append(name.as_str());
            emit(out, OutputLine::Dimmed(l));
            let ghost head = lines_view(out@);
            let a = &d.attribute_changes;
            let mut i: usize = 0;
            assert(a@.take(0) =~= Seq::<AttributeChange>::empty());
            while i < a.len()
                invariant
                    0 <= i <= a.len(),
                    lines_view(out@) == head + modified_attr_lines(a@.take(i as int)),
                decreases a.len() - i,
            {
                assert(a@.take(i + 1).drop_last() =~= a@.take(i as int));
                assert(a@.take(i + 1).last() == a@[i as int]);
                let mut t = "    ".to_owned();
                t.append(a[i].attribute.as_str());
                t.append(": ");
                t.append(or_null_text(&a[i].old_value));
                t.append(" -> ");
                t.append(or_null_text(&a[i].new_value));
                emit(out, OutputLine::Dimmed(t));
                assert(lines_view(out@) =~= head + modified_attr_lines(a@.take(i + 1)));
                i = i + 1;
            }
            assert(a@.take(a@.len() as int) =~= a@);
            emit(out, OutputLine::Blank);
        },
        ChangeType::Deleted => {
            let mut l = "- ".to_owned();
            l.append(name.as_str());
            emit(out, OutputLine::Dimmed(l));
            emit(out, OutputLine::Blank);
        },
        ChangeType::Unchanged => {
            emit(out, OutputLine::Blank);
        },
    }
    assert(lines_view(out@) =~= before + resource_lines(*d));
}

impl AuditCommand {
    /// The audit log report for `logs`: the entries whose action contains
    /// `action_filter`, the first `limit` of them (twenty by default).
    pub fn log_report(logs: &Vec<AuditLogEntry>, action_filter: Option<&str>, limit: Option<usize>) -> (r:
        Vec<OutputLine>)
        ensures
            lines_view(r@) == log_report(logs@, opt_view(action_filter), limit),
    {
        let ghost f = filtered_logs(logs@, opt_view(action_filter));
        let mut filtered: Vec<&AuditLogEntry> = Vec::new();
        let mut i: usize = 0;
        assert(logs@.take(0) =~= Seq::<AuditLogEntry>::empty());
        while i < logs.len()
            invariant
                0 <= i <= logs.len(),
                filtered@.map_values(|x: &AuditLogEntry| *x) == filtered_logs(
                    logs@.take(i as int),
                    opt_view(action_filter),
                ),
            decreases logs.len() - i,
        {
            let e = &logs[i];
            assert(logs@.take(i + 1).drop_last() =~= logs@.take(i as int));
            assert(logs@.take(i + 1).last() == *e);
            let keep = match action_filter {
                Some(x) => contains(e.action.as_str(), x),
                None => true,
            };
            let ghost before = filtered@.map_values(|x: &AuditLogEntry| *x);
            if keep {
                filtered.push(e);
                assert(filtered@.map_values(|x: &AuditLogEntry| *x) =~= before.push(*e));
            }
            i = i + 1;
        }
        assert(logs@.take(logs@.len() as int) =~= logs@);
        let ghost fv = filtered@.map_values(|x: &AuditLogEntry| *x);
        assert(fv == f);
        let n: usize = match limit {
            Some(l) => l,
            None => 20,
        };
        let count: usize = if filtered.len() <= n {
            filtered.len()
        } else {
            n
        };
        let mut out: Vec<OutputLine> = Vec::new();
        if count == 0 {
            emit(&mut out, OutputLine::Info("No audit logs found".to_owned()));
            assert(lines_view(out@) =~= log_report(logs@, opt_view(action_filter), limit));
            return out;
        }
        emit(&mut out, OutputLine::Subsection("Recent Deployments".to_owned()));
        emit(&mut out, OutputLine::Blank);
        let ghost shown = f.take(count as int);
        let ghost head = lines_view(out@);
        let mut j: usize = 0;
        assert(shown.take(0) =~= Seq::<AuditLogEntry>::empty());
        while j < count
            invariant
                0 <= j <= count <= filtered.len(),
                filtered@.map_values(|x: &AuditLogEntry| *x) == f,
                shown == f.take(count as int),
                lines_view(out@) == head + entries_lines(shown.take(j as int)),
            decreases count - j,
        {
            let e = filtered[j];
            assert(filtered@.map_values(|x: &AuditLogEntry| *x)[j as int] == *e);
            assert(shown.take(j + 1).drop_last() =~= shown.take(j as int));
            assert(shown.take(j + 1).last() == *e);
            push_entry_lines(&mut out, e);
            assert(lines_view(out@) =~= head + entries_lines(shown.take(j + 1)));
            j = j + 1;
        }
        assert(shown.take(count as int) =~= shown);
        let ghost body = lines_view(out@);
        if filtered.len() > n {
            let mut m = "... and ".to_owned();
            m.append(usize_to_string(filtered.len() - n).as_str());
            m.append(" more entries (use --limit to see more)");
            emit(&mut out, OutputLine::Dimmed(m));
            emit(&mut out, OutputLine::Blank);
        }
        let mut s = "Showing ".to_owned();
        s.append(usize_to_string(count).as_str());
        s.append(" audit entries");
        emit(&mut out, OutputLine::Success(s));
        proof {
            if f.len() <= n {
                assert(shown =~= f);
            }
        }
        assert(lines_view(out@) =~= log_report(logs@, opt_view(action_filter), limit));
        out
    }
    /// The text report of `diff`: each changed resource with its attributes,
    /// then how many resources were added, changed and removed.
    pub fn diff_report(diff: &StateDiff) -> (r: Vec<OutputLine>)
        ensures
            lines_view(r@) == diff_report(*diff),
    {
        let mut out: Vec<OutputLine> = Vec::new();
        emit(&mut out, OutputLine::Subsection("Resource Changes".to_owned()));
        emit(&mut out, OutputLine::Blank);
        let ghost head = lines_view(out@);
        let s = &diff.differences;
        let mut added: usize = 0;
        let mut modified: usize = 0;
        let mut deleted: usize = 0;
        let mut i: usize = 0;
        assert(s@.take(0) =~= Seq::<ResourceDiff>::empty());
        while i < s.len()
            invariant
                0 <= i <= s.len(),
                lines_view(out@) == head + resources_lines(s@.take(i as int)),
                added == count_changes(s@.take(i as int), 0),
                modified == count_changes(s@.take(i as int), 1),
                deleted == count_changes(s@.take(i as int), 2),
            decreases s.len() - i,
        {
            assert(s@.take(i + 1).drop_last() =~= s@.take(i as int));
            assert(s@.take(i + 1).last() == s@[i as int]);
            proof {
                lemma_count_changes_bound(s@.take(i as int), 0);
                lemma_count_changes_bound(s@.take(i as int), 1);
                lemma_count_changes_bound(s@.take(i as int), 2);
            }
            match s[i].change_type {
                ChangeType::Added => {
                    added = added + 1;
                },
                ChangeType::Modified => {
                    modified = modified + 1;
                },
                ChangeType::Deleted => {
                    deleted = deleted + 1;
                },
                ChangeType::Unchanged => {},
            }
            push_resource_lines(&mut out, &s[i]);
            assert(lines_view(out@) =~= head + resources_lines(s@.take(i + 1)));
            i = i + 1;
        }
        assert(s@.take(s@.len() as int) =~= s@);
        emit(&mut out, OutputLine::Subsection("Summary".to_owned()));
        let mut a = "+".to_owned();
        a.append(usize_to_string(added).as_str());
        emit(&mut out, OutputLine::KeyValue("Resources Added".to_owned(), a));
        let mut m = "~".to_owned();
        m.append(usize_to_string(modified).as_str());
        emit(&mut out, OutputLine::KeyValue("Resources Modified".to_owned(), m));
        let mut d = "-".to_owned();
        d.append(usize_to_string(deleted).as_str());
        emit(&mut out, OutputLine::KeyValue("Resources Deleted".to_owned(), d));
        emit(&mut out, OutputLine::Blank);
        emit(&mut out, OutputLine::Success("Diff analysis complete".to_owned()));
        assert(lines_view(out@) =~= diff_report(*diff));
        out
    }

    /// The diff between the states `from` and `to` of the environment
    /// `resource`. State files are not read yet: the diff lists a fixed set
    /// of example changes.
    pub fn generate_state_diff(resource: &EnvironmentResource, from: &str, to: &str) -> (r: StateDiff)
        ensures
            r.project@ == resource.metadata.name@,
            r.environment@ == resource.metadata.environment_name@,
            r.from_state@ == from@,
            r.to_state@ == to@,
            r.differences@.len() == 3,
            r.differences@[0].change_type is Modified,
            r.differences@[1].change_type is Added,
            r.differences@[2].change_type is Deleted,
    {
        let mut modified_attrs: Vec<AttributeChange> = Vec::new();
        modified_attrs.push(
            AttributeChange {
                attribute: "instance_type".to_owned(),
                old_value: Some("t2.micro".to_owned()),
                new_value: Some("t2.small".to_owned()),
            },
        );
        modified_attrs.push(
            AttributeChange {
                attribute: "tags.Environment".to_owned(),
                old_value: Some("dev".to_owned()),
                new_value: Some("staging".to_owned()),
            },
        );
        let mut added_attrs: Vec<AttributeChange> = Vec::new();
        added_attrs.push(
            AttributeChange {
                attribute: "bucket".to_owned(),
                old_value: None,
                new_value: Some("my-assets-bucket".to_owned()),
            },
        );
        let mut deleted_attrs: Vec<AttributeChange> = Vec::new();
        deleted_attrs.push(
            AttributeChange {
                attribute: "instance_class".to_owned(),
                old_value: Some("db.t2.micro".to_owned()),
                new_value: None,
            },
        );
        let mut differences: Vec<ResourceDiff> = Vec::new();
        differences.push(
            ResourceDiff {
                resource_type: "aws_instance".to_owned(),
                resource_name: "web_server".to_owned(),
                change_type: ChangeType::Modified,
                attribute_changes: modified_attrs,
            },
        );
        differences.push(
            ResourceDiff {
                resource_type: "aws_s3_bucket".to_owned(),
                resource_name: "assets".to_owned(),
                change_type: ChangeType::Added,
                attribute_changes: added_attrs,
            },
        );
        differences.push(
            ResourceDiff {
                resource_type: "aws_db_instance".to_owned(),
                resource_name: "legacy_db".to_owned(),
                change_type: ChangeType::Deleted,
                attribute_changes: deleted_attrs,
            },
        );
        StateDiff {
            project: resource.metadata.name.clone(),
            environment: resource.metadata.environment_name.clone(),
            from_state: from.to_owned(),
            to_state: to.to_owned(),
            differences,
        }
    }
}

} // verus!
