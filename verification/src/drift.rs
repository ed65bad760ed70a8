//! The `drift` command: what an OpenTofu plan of an environment says has
//! changed outside its configuration, read out of the plan's text, and the
//! reports made of it.

use vstd::prelude::*;
use crate::output::{emit, lines_view, LineView, OutputLine};
use crate::resources::EnvironmentResource;
use crate::stamps::now_rfc3339;
use crate::text::{concat, decimal, lines, lines_spec, str_eq, trim, trim_spec, usize_to_string, views_of};

verus! {

broadcast use vstd::string::group_string_axioms;

/// The `drift` command.
pub struct DriftCommand;

/// How an attribute drifted.
#[derive(PartialEq, Eq, Structural)]
pub enum ChangeType {
    Added,
    Modified,
    Removed,
}

/// One drifted attribute of a resource.
pub struct DriftChange {
    pub resource_address: String,
    pub change_type: ChangeType,
    pub attribute: String,
    pub expected: String,
    pub actual: String,
}

/// What a drift check of an environment found.
pub struct DriftReport {
    pub project: String,
    pub environment: String,
    pub timestamp: String,
    pub has_drift: bool,
    pub changes: Vec<DriftChange>,
}

/// A drifted attribute as plain values: how, resource, attribute, expected
/// and actual value.
pub type ChangeView = (ChangeType, Seq<char>, Seq<char>, Seq<char>, Seq<char>);

impl View for DriftChange {
    type V = ChangeView;

    open spec fn view(&self) -> ChangeView {
        (self.change_type, self.resource_address@, self.attribute@, self.expected@, self.actual@)
    }
}

/// The plain values of a list of changes.
pub open spec fn changes_view(s: Seq<DriftChange>) -> Seq<ChangeView> {
    s.map_values(|c: DriftChange| c@)
}

/// The line of a plan that names the resource its following lines are about.
pub const RESOURCE_PATTERN: &'static str = "^#\\s+(.+?)\\s+(will be|must be)\\s+(created|updated|destroyed|replaced)";

/// The line of a plan that changes an attribute: `+`, `~` or `-`, the
/// attribute, `=`, the value.
pub const CHANGE_PATTERN: &'static str = "^\\s+([+~-])\\s+(.+?)\\s+=\\s+(.+)$";

/// The value of a changed attribute: `"old" -> "new"`.
pub const ARROW_PATTERN: &'static str = "\"(.+?)\"\\s+->\\s+\"(.+?)\"";

/// What the regular expression `pattern` captures in `text`, as
/// `regex::Regex::captures` finds it: none when it does not match (or is no
/// valid expression), else each group, the whole match first, and none for a
/// group that took no part.
pub uninterp spec fn regex_captures(pattern: Seq<char>, text: Seq<char>) -> Option<Seq<Option<Seq<char>>>>;

/// The plain values of captured groups.
pub open spec fn captures_view(c: Option<Vec<Option<String>>>) -> Option<Seq<Option<Seq<char>>>> {
    match c {
        Some(v) => Some(
            v@.map_values(
                |g: Option<String>|
                    match g {
                        Some(s) => Some(s@),
                        None => None,
                    },
            ),
        ),
        None => None,
    }
}

/// The groups that the regular expression `pattern` captures in `text`:
/// `regex::Regex::new(pattern)`, then `captures(text)`.
#[verifier::external_body]
fn captures(pattern: &str, text: &str) -> (r: Option<Vec<Option<String>>>)
    ensures
        captures_view(r) == regex_captures(pattern@, text@),
{
    let re = match regex::Regex::new(pattern) {
        Ok(re) => re,
        Err(_) => return None,
    };
    re.captures(text).map(|c| c.iter().map(|m| m.map(|m| m.as_str().to_string())).collect())
}

/// The text of group `i` of `caps`, or nothing when the group is missing.
pub open spec fn group(caps: Seq<Option<Seq<char>>>, i: int) -> Seq<char> {
    if 0 <= i < caps.len() {
        match caps[i] {
            Some(s) => s,
            None => Seq::empty(),
        }
    } else {
        Seq::empty()
    }
}

/// The expected and actual values of a change of the kind `t` whose value
/// text is `value`.
pub open spec fn change_values(t: ChangeType, value: Seq<char>) -> (Seq<char>, Seq<char>) {
    match t {
        ChangeType::Modified => match regex_captures(ARROW_PATTERN@, value) {
            Some(a) => (group(a, 1), group(a, 2)),
            None => ("(unknown)"@, value),
        },
        ChangeType::Added => ("(not set)"@, value),
        ChangeType::Removed => (value, "(removed)"@),
    }
}

/// The kind of change that `symbol` marks.
pub open spec fn change_kind(symbol: Seq<char>) -> Option<ChangeType> {
    if symbol == "+"@ {
        Some(ChangeType::Added)
    } else if symbol == "-"@ {
        Some(ChangeType::Removed)
    } else if symbol == "~"@ {
        Some(ChangeType::Modified)
    } else {
        None
    }
}

/// Reading a plan's lines: the resource the last resource line named, and
/// the changes found so far.
pub type ParseState = (Seq<char>, Seq<ChangeView>);

/// What reading `line` does: a resource line names the current resource; a
/// change line, under a named resource, adds a change.
pub open spec fn parse_step(st: ParseState, line: Seq<char>) -> ParseState {
    match regex_captures(RESOURCE_PATTERN@, line) {
        Some(caps) => (group(caps, 1), st.1),
        None => match regex_captures(CHANGE_PATTERN@, line) {
            Some(caps) => match change_kind(group(caps, 1)) {
                Some(t) => {
                    let attribute = trim_spec(group(caps, 2));
                    let value = trim_spec(group(caps, 3));
                    let (expected, actual) = change_values(t, value);
                    if st.0.len() > 0 {
                        (st.0, st.1.push((t, st.0, attribute, expected, actual)))
                    } else {
                        st
                    }
                },
                None => st,
            },
            None => st,
        },
    }
}

/// What reading the lines `ls` in order gives.
pub open spec fn parse_lines(ls: Seq<Seq<char>>) -> ParseState
    decreases ls.len(),
{
    if ls.len() == 0 {
        (Seq::empty(), Seq::empty())
    } else {
        parse_step(parse_lines(ls.drop_last()), ls.last())
    }
}

/// The resource named by the nearest resource line among the first `j`
/// lines of `ls` (the last such line), or nothing when there is none.
pub open spec fn resource_above(ls: Seq<Seq<char>>, j: int) -> Seq<char>
    decreases j,
{
    if j <= 0 || j > ls.len() {
        Seq::empty()
    } else {
        match regex_captures(RESOURCE_PATTERN@, ls[j - 1]) {
            Some(caps) => group(caps, 1),
            None => resource_above(ls, j - 1),
        }
    }
}

/// Whether line `j` of `ls` is an attribute line (and no resource line)
/// whose attribute is `attribute`.
pub open spec fn attribute_line(ls: Seq<Seq<char>>, j: int, attribute: Seq<char>) -> bool {
    &&& 0 <= j < ls.len()
    &&& regex_captures(RESOURCE_PATTERN@, ls[j]) is None
    &&& regex_captures(CHANGE_PATTERN@, ls[j]) matches Some(caps) && trim_spec(group(caps, 2)) == attribute
}

/// Whether the change `c` comes from line `j` of `ls`: an attribute line for
/// its attribute, marked with the symbol of its kind, under a resource line,
/// naming the resource of the nearest resource line above it.
pub open spec fn change_from_line(ls: Seq<Seq<char>>, j: int, c: ChangeView) -> bool {
    &&& attribute_line(ls, j, c.2)
    &&& regex_captures(CHANGE_PATTERN@, ls[j]) matches Some(caps) && change_kind(group(caps, 1)) == Some(c.0)
    &&& c.1 == resource_above(ls, j)
    &&& resource_above(ls, j).len() > 0
}

/// The nearest resource line above a line depends only on the lines above.
proof fn lemma_resource_above_prefix(ls: Seq<Seq<char>>, n: int, j: int)
    requires
        0 <= j <= n <= ls.len(),
    ensures
        resource_above(ls.take(n), j) == resource_above(ls, j),
    decreases j,
{
    if j > 0 {
        assert(ls.take(n)[j - 1] == ls[j - 1]);
        lemma_resource_above_prefix(ls, n, j - 1);
    }
}

/// Whether the change `c` comes from some line of `ls` as
/// `change_from_line` says.
pub open spec fn change_sourced(ls: Seq<Seq<char>>, c: ChangeView) -> bool {
    exists|j: int| #[trigger] change_from_line(ls, j, c)
}

/// Reading lines keeps, as the current resource, the one that the nearest
/// resource line above names; each change read comes from an attribute line
/// and names the resource of the nearest resource line above that line.
pub proof fn lemma_changes_name_nearest_resource(ls: Seq<Seq<char>>)
    ensures
        parse_lines(ls).0 == resource_above(ls, ls.len() as int),
        forall|m: int| 0 <= m < parse_lines(ls).1.len() ==> #[trigger] change_sourced(ls, parse_lines(ls).1[m]),
    decreases ls.len(),
{
    if ls.len() > 0 {
        let p = ls.drop_last();
        let n = ls.len() - 1;
        lemma_changes_name_nearest_resource(p);
        assert(p =~= ls.take(n));
        lemma_resource_above_prefix(ls, n, n);
        let prev = parse_lines(p);
        assert(parse_lines(ls) == parse_step(prev, ls.last()));
        assert(ls[n] == ls.last());
        assert forall|m: int| 0 <= m < parse_lines(ls).1.len() implies #[trigger] change_sourced(ls, parse_lines(ls).1[m]) by {
            if m < prev.1.len() {
                assert(parse_lines(ls).1[m] == prev.1[m]);
                assert(change_sourced(p, prev.1[m]));
                let j = choose|j: int| #[trigger] change_from_line(p, j, prev.1[m]);
                lemma_resource_above_prefix(ls, n, j);
                assert(p[j] == ls[j]);
                assert(change_from_line(ls, j, parse_lines(ls).1[m]));
            } else {
                assert(change_from_line(ls, n, parse_lines(ls).1[m]));
            }
        }
    }
}

/// The changes read out of a plan's output, when some are read, each come
/// from an attribute line and name the resource of the nearest resource line
/// above it.
pub proof fn lemma_plan_changes_name_nearest_resource(stdout: Seq<char>, exit_code: Option<i32>)
    ensures
        parse_lines(lines_spec(stdout)).1.len() > 0 ==> forall|m: int|
            0 <= m < plan_changes(stdout, exit_code).len() ==> #[trigger] change_sourced(
                lines_spec(stdout),
                plan_changes(stdout, exit_code)[m],
            ),
{
    lemma_changes_name_nearest_resource(lines_spec(stdout));
}

/// The change that stands for all when a plan (which ended with `exit_code`
/// 2) shows changes but none could be read.
pub open spec fn summary_change() -> ChangeView {
    (
        ChangeType::Modified,
        "(multiple resources)"@,
        "configuration"@,
        "declared state"@,
        "actual state differs"@,
    )
}

/// The changes read out of a plan's output `stdout` (the plan ended with
/// `exit_code`).
pub open spec fn plan_changes(stdout: Seq<char>, exit_code: Option<i32>) -> Seq<ChangeView> {
    let found = parse_lines(lines_spec(stdout)).1;
    if found.len() == 0 && exit_code == Some(2i32) {
        seq![summary_change()]
    } else {
        found
    }
}

/// The mark of a kind of change.
pub open spec fn symbol_spec(t: ChangeType) -> Seq<char> {
    match t {
        ChangeType::Added => "+"@,
        ChangeType::Modified => "~"@,
        ChangeType::Removed => "-"@,
    }
}

/// The name of a kind of change.
pub open spec fn type_name_spec(t: ChangeType) -> Seq<char> {
    match t {
        ChangeType::Added => "Added"@,
        ChangeType::Modified => "Modified"@,
        ChangeType::Removed => "Removed"@,
    }
}

/// The lines that show one change.
pub open spec fn change_lines(c: ChangeView) -> Seq<LineView> {
    seq![
        LineView::Dimmed("["@ + symbol_spec(c.0) + "] "@ + c.1 + " ["@ + c.2 + "]:"@),
        LineView::Dimmed("  Expected: "@ + c.3),
        LineView::Dimmed("  Actual:   "@ + c.4),
        LineView::Blank,
    ]
}

/// The lines that show the changes `cs`, one after another.
pub open spec fn changes_lines(cs: Seq<ChangeView>) -> Seq<LineView>
    decreases cs.len(),
{
    if cs.len() == 0 {
        Seq::empty()
    } else {
        changes_lines(cs.drop_last()) + change_lines(cs.last())
    }
}

/// The text of one change in a report.
pub open spec fn change_text(c: ChangeView) -> Seq<char> {
    "["@ + type_name_spec(c.0) + "] "@ + c.1 + " ["@ + c.2 + "]:\n"@ + "  Expected: "@ + c.3 + "\n"@
        + "  Actual:   "@ + c.4 + "\n\n"@
}

/// The text of the changes `cs`, one after another.
pub open spec fn changes_text(cs: Seq<ChangeView>) -> Seq<char>
    decreases cs.len(),
{
    if cs.len() == 0 {
        Seq::empty()
    } else {
        changes_text(cs.drop_last()) + change_text(cs.last())
    }
}

/// How `true` and `false` are written.
pub open spec fn bool_text(b: bool) -> Seq<char> {
    if b {
        "true"@
    } else {
        "false"@
    }
}

/// A drift report as text.
pub open spec fn report_text_spec(r: DriftReport) -> Seq<char> {
    "Drift Report: "@ + r.project@ + " ("@ + r.environment@ + ")\n"@ + "Timestamp: "@ + r.timestamp@ + "\n"@
        + "Has Drift: "@ + bool_text(r.has_drift) + "\n"@ + "Changes: "@ + decimal(r.changes@.len())
        + "\n\n"@ + changes_text(changes_view(r.changes@))
}

/// The lines that show the changes of a report before they are reconciled.
pub open spec fn reconcile_line(c: ChangeView) -> LineView {
    LineView::Dimmed(symbol_spec(c.0) + " "@ + c.1 + " ["@ + c.2 + "]: "@ + c.3 + " → "@ + c.4)
}

/// Whether a format asks for text: none, or `text`.
pub open spec fn is_text_format(format: Option<Seq<char>>) -> bool {
    format is None || format == Some("text"@)
}

impl DriftCommand {
    /// The changes that the output `stdout` of a plan shows: under each
    /// resource line, a change per attribute line (`+` added, `~`
    /// modified with its old and new value, `-` removed). When none can be
    /// read but the plan ended with exit code 2 (changes present), a single
    /// change stands for all.
    pub fn parse_plan_output(stdout: &str, exit_code: Option<i32>) -> (r: Vec<DriftChange>)
        ensures
            changes_view(r@) == plan_changes(stdout@, exit_code),
    {
        let ls = lines(stdout);
        let ghost lv = lines_spec(stdout@);
        let mut changes: Vec<DriftChange> = Vec::new();
        let mut current = String::new();
        let mut i: usize = 0;
        assert(lv.take(0) =~= Seq::<Seq<char>>::empty());
        assert(changes_view(changes@) =~= Seq::<ChangeView>::empty());
        while i < ls.len()
            invariant
                0 <= i <= ls.len(),
                views_of(ls@) == lv,
                (current@, changes_view(changes@)) == parse_lines(lv.take(i as int)),
            decreases ls.len() - i,
        {
            let line = ls[i].as_str();
            proof {
                assert(lv[i as int] == line@);
                assert(lv.take(i + 1).drop_last() =~= lv.take(i as int));
                assert(lv.take(i + 1).last() == line@);
            }
            match captures(RESOURCE_PATTERN, line) {
                Some(caps) => {
                    current = Self::group_text(&caps, 1);
                },
                None => match captures(CHANGE_PATTERN, line) {
                    Some(caps) => {
                        let symbol = Self::group_text(&caps, 1);
                        let kind = if str_eq(symbol.as_str(), "+") {
                            Some(ChangeType::Added)
                        } else if str_eq(symbol.as_str(), "-") {
                            Some(ChangeType::Removed)
                        } else if str_eq(symbol.as_str(), "~") {
                            Some(ChangeType::Modified)
                        } else {
                            None
                        };
                        match kind {
                            Some(t) => {
                                let attribute = trim(Self::group_text(&caps, 2).as_str());
                                let value = trim(Self::group_text(&caps, 3).as_str());
                                let (expected, actual) = Self::values_of(&t, value.as_str());
                                if current.as_str().unicode_len() > 0 {
                                    let ghost before = changes@;
                                    let c = DriftChange {
                                        resource_address: current.clone(),
                                        change_type: t,
                                        attribute,
                                        expected,
                                        actual,
                                    };
                                    let ghost cv = c@;
                                    changes.push(c);
                                    assert(changes_view(changes@) =~= changes_view(before).push(cv));
                                }
                            },
                            None => {},
                        }
                    },
                    None => {},
                },
            }
            i = i + 1;
        }
        assert(lv.take(ls.len() as int) =~= lv);
        if changes.len() == 0 && exit_code == Some(2i32) {
            changes.push(
                DriftChange {
                    resource_address: "(multiple resources)".to_owned(),
                    change_type: ChangeType::Modified,
                    attribute: "configuration".to_owned(),
                    expected: "declared state".to_owned(),
                    actual: "actual state differs".to_owned(),
                },
            );
            assert(changes_view(changes@) =~= seq![summary_change()]);
        }
        changes
    }

    /// The text of group `i` of `caps`, or an empty text.
    fn group_text(caps: &Vec<Option<String>>, i: usize) -> (r: String)
        ensures
            r@ == group(
                caps@.map_values(
                    |g: Option<String>|
                        match g {
                            Some(s) => Some(s@),
                            None => None,
                        },
                ),
                i as int,
            ),
    {
        if i < caps.len() {
            match &caps[i] {
                Some(s) => s.clone(),
                None => String::new(),
            }
        } else {
            String::new()
        }
    }

    /// The expected and actual values of a change of the kind `t` whose
    /// value text is `value`.
    fn values_of(t: &ChangeType, value: &str) -> (r: (String, String))
        ensures
            (r.0@, r.1@) == change_values(*t, value@),
    {
        match t {
            ChangeType::Modified => match captures(ARROW_PATTERN, value) {
                Some(a) => (Self::group_text(&a, 1), Self::group_text(&a, 2)),
                None => ("(unknown)".to_owned(), value.to_owned()),
            },
            ChangeType::Added => ("(not set)".to_owned(), value.to_owned()),
            ChangeType::Removed => (value.to_owned(), "(removed)".to_owned()),
        }
    }

    /// The drift report of the environment `resource`, made now from the
    /// output of its plan (`stdout`, ended with `exit_code`).
    pub fn generate_drift_report(resource: &EnvironmentResource, stdout: &str, exit_code: Option<i32>) -> (r:
        DriftReport)
        ensures
            r.project@ == resource.metadata.name@,
            r.environment@ == resource.metadata.environment_name@,
            changes_view(r.changes@) == plan_changes(stdout@, exit_code),
            r.has_drift == (r.changes@.len() > 0),
    {
        let changes = Self::parse_plan_output(stdout, exit_code);
        let has_drift = changes.len() > 0;
        DriftReport {
            project: resource.metadata.name.clone(),
            environment: resource.metadata.environment_name.clone(),
            timestamp: now_rfc3339(),
            has_drift,
            changes,
        }
    }

    /// The mark of a kind of change: `+`, `~` or `-`.
    pub fn change_symbol(t: &ChangeType) -> (r: &'static str)
        ensures
            r@ == symbol_spec(*t),
    {
        match t {
            ChangeType::Added => "+",
            ChangeType::Modified => "~",
            ChangeType::Removed => "-",
        }
    }

    /// The name of a kind of change.
    pub fn change_type_name(t: &ChangeType) -> (r: &'static str)
        ensures
            r@ == type_name_spec(*t),
    {
        match t {
            ChangeType::Added => "Added",
            ChangeType::Modified => "Modified",
            ChangeType::Removed => "Removed",
        }
    }

    /// The lines that show the changes `changes`.
    pub fn display_drift_changes(changes: &Vec<DriftChange>) -> (r: Vec<OutputLine>)
        ensures
            lines_view(r@) == changes_lines(changes_view(changes@)),
    {
        let ghost cv = changes_view(changes@);
        let mut out: Vec<OutputLine> = Vec::new();
        let mut i: usize = 0;
        assert(cv.take(0) =~= Seq::<ChangeView>::empty());
        assert(lines_view(out@) =~= Seq::<LineView>::empty());
        while i < changes.len()
            invariant
                0 <= i <= changes.len(),
                cv == changes_view(changes@),
                lines_view(out@) == changes_lines(cv.take(i as int)),
            decreases changes.len() - i,
        {
            let c = &changes[i];
            let ghost before = lines_view(out@);
            let mut head = "[".to_owned();
            head.append(Self::change_symbol(&c.change_type));
            head.append("] ");
            head.append(c.resource_address.as_str());
            head.append(" [");
            head.append(c.attribute.as_str());
            head.append("]:");
            emit(&mut out, OutputLine::Dimmed(head));
            emit(&mut out, OutputLine::Dimmed(concat("  Expected: ", c.expected.as_str())));
            emit(&mut out, OutputLine::Dimmed(concat("  Actual:   ", c.actual.as_str())));
            emit(&mut out, OutputLine::Blank);
            proof {
                assert(cv[i as int] == c@);
                assert(lines_view(out@) =~= before + change_lines(c@));
                assert(cv.take(i + 1).drop_last() =~= cv.take(i as int));
                assert(cv.take(i + 1).last() == c@);
            }
            i = i + 1;
        }
        assert(cv.take(changes.len() as int) =~= cv);
        out
    }

    /// The text of the change `c` in a report.
    fn change_block(c: &DriftChange) -> (r: String)
        ensures
            r@ == change_text(c@),
    {
        let mut t = "[".to_owned();
        t.append(Self::change_type_name(&c.change_type));
        t.append("] ");
        t.append(c.resource_address.as_str());
        t.append(" [");
        t.append(c.attribute.as_str());
        t.append("]:\n");
        t.append("  Expected: ");
        t.append(c.expected.as_str());
        t.append("\n");
        t.append("  Actual:   ");
        t.append(c.actual.as_str());
        t.append("\n\n");
        t
    }

    /// The report `report` as text.
    pub fn report_text(report: &DriftReport) -> (r: String)
        ensures
            r@ == report_text_spec(*report),
    {
        let mut text = "Drift Report: ".to_owned();
        text.append(report.project.as_str());
        text.append(" (");
        text.append(report.environment.as_str());
        text.append(")\n");
        text.append("Timestamp: ");
        text.append(report.timestamp.as_str());
        text.append("\n");
        text.append("Has Drift: ");
        text.append(
            if report.has_drift {
                "true"
            } else {
                "false"
            },
        );
        text.append("\n");
        text.append("Changes: ");
        text.append(usize_to_string(report.changes.len()).as_str());
        text.append("\n\n");
        let ghost head = text@;
        let ghost cv = changes_view(report.changes@);
        let mut i: usize = 0;
        assert(cv.take(0) =~= Seq::<ChangeView>::empty());
        while i < report.changes.len()
            invariant
                0 <= i <= report.changes.len(),
                cv == changes_view(report.changes@),
                text@ == head + changes_text(cv.take(i as int)),
            decreases report.changes.len() - i,
        {
            let c = &report.changes[i];
            let ghost t0 = text@;
            let piece = Self::change_block(c);
            text.append(piece.as_str());
            proof {
                assert(cv[i as int] == c@);
                assert(cv.take(i + 1).drop_last() =~= cv.take(i as int));
                assert(cv.take(i + 1).last() == c@);
                assert(t0 == head + changes_text(cv.take(i as int)));
                assert(changes_text(cv.take(i + 1)) == changes_text(cv.take(i as int)) + change_text(c@));
                assert(text@ =~= head + changes_text(cv.take(i + 1)));
            }
            i = i + 1;
        }
        assert(cv.take(report.changes.len() as int) =~= cv);
        text
    }

    /// The lines of a drift check of one environment (`resource`), given
    /// its report: the drift found, and in the text format (`format` none
    /// or `text`) each change.
    pub fn single_environment_lines(resource: &EnvironmentResource, report: &DriftReport, format: Option<&str>) -> (r:
        Vec<OutputLine>)
        ensures
            lines_view(r@) == seq![
                LineView::Subsection(
                    "Project: "@ + resource.metadata.name@ + " ("@ + resource.metadata.environment_name@
                        + ")"@,
                ),
                LineView::Blank,
                LineView::Dimmed("Refreshing state..."@),
                LineView::Dimmed("Detecting changes..."@),
            ] + if report.has_drift {
                seq![LineView::Error("Drift detected: "@ + decimal(report.changes@.len()) + " change(s)"@)]
                    + if is_text_format(
                    match format {
                        Some(f) => Some(f@),
                        None => None,
                    },
                ) {
                    seq![LineView::Blank] + changes_lines(changes_view(report.changes@))
                } else {
                    Seq::empty()
                }
            } else {
                seq![LineView::Success("No drift detected. Infrastructure matches configuration."@)]
            },
    {
        let mut out: Vec<OutputLine> = Vec::new();
        assert(lines_view(out@) =~= Seq::<LineView>::empty());
        let mut heading = "Project: ".to_owned();
        heading.append(resource.metadata.name.as_str());
        heading.append(" (");
        heading.append(resource.metadata.environment_name.as_str());
        heading.append(")");
        emit(&mut out, OutputLine::Subsection(heading));
        emit(&mut out, OutputLine::Blank);
        emit(&mut out, OutputLine::Dimmed("Refreshing state...".to_owned()));
        emit(&mut out, OutputLine::Dimmed("Detecting changes...".to_owned()));
        let ghost head = lines_view(out@);
        if report.has_drift {
            let mut e = "Drift detected: ".to_owned();
            e.append(usize_to_string(report.changes.len()).as_str());
            e.append(" change(s)");
            emit(&mut out, OutputLine::Error(e));
            let text_format = match format {
                None => true,
                Some(f) => str_eq(f, "text"),
            };
            if text_format {
                emit(&mut out, OutputLine::Blank);
                let ghost mid = lines_view(out@);
                let mut shown = Self::display_drift_changes(&report.changes);
                let ghost sv = lines_view(shown@);
                out.append(&mut shown);
                assert(lines_view(out@) =~= mid + sv);
            }
        } else {
            emit(&mut out, OutputLine::Success("No drift detected. Infrastructure matches configuration.".to_owned()));
        }
        out
    }

    /// The summary of a drift check of every environment: `drifted` holds,
    /// for each environment that drifted, its key (`project:environment`)
    /// and how many changes it has; the list is shown in the text format.
    pub fn all_projects_lines(drifted: &Vec<(String, usize)>, format: Option<&str>) -> (r: Vec<OutputLine>)
        requires
            total_changes(drifted@) <= usize::MAX,
        ensures
            lines_view(r@) == all_projects_report(
                drifted@.map_values(|e: (String, usize)| (e.0@, e.1 as nat)),
                match format {
                    Some(f) => Some(f@),
                    None => None,
                },
            ),
    {
        let ghost dv = drifted@.map_values(|e: (String, usize)| (e.0@, e.1 as nat));
        let mut total: usize = 0;
        let mut i: usize = 0;
        assert(drifted@.take(0) =~= Seq::<(String, usize)>::empty());
        while i < drifted.len()
            invariant
                0 <= i <= drifted.len(),
                total == total_changes(drifted@.take(i as int)),
                total_changes(drifted@) <= usize::MAX,
            decreases drifted.len() - i,
        {
            proof {
                assert(drifted@.take(i + 1).drop_last() =~= drifted@.take(i as int));
                lemma_total_prefix(drifted@, i + 1);
            }
            total = total + drifted[i].1;
            i = i + 1;
        }
        assert(drifted@.take(drifted.len() as int) =~= drifted@);
        assert(total_views(dv) == total_changes(drifted@)) by {
            lemma_total_views(drifted@);
        }
        let mut out: Vec<OutputLine> = Vec::new();
        assert(lines_view(out@) =~= Seq::<LineView>::empty());
        if total == 0 {
            emit(&mut out, OutputLine::Success("No drift detected across all projects.".to_owned()));
            return out;
        }
        let mut e = "Drift detected in ".to_owned();
        e.append(usize_to_string(drifted.len()).as_str());
        e.append(" project(s) with ");
        e.append(usize_to_string(total).as_str());
        e.append(" total change(s)");
        emit(&mut out, OutputLine::Error(e));
        emit(&mut out, OutputLine::Blank);
        let text_format = match format {
            None => true,
            Some(f) => str_eq(f, "text"),
        };
        if text_format {
            let ghost head = lines_view(out@);
            let mut j: usize = 0;
            while j < drifted.len()
                invariant
                    0 <= j <= drifted.len(),
                    dv == drifted@.map_values(|e: (String, usize)| (e.0@, e.1 as nat)),
                    lines_view(out@) == head + drifted_items(dv).take(j as int),
                decreases drifted.len() - j,
            {
                let mut item = "• ".to_owned();
                item.append(drifted[j].0.as_str());
                item.append(" (");
                item.append(usize_to_string(drifted[j].1).as_str());
                item.append(" changes)");
                emit(&mut out, OutputLine::Info(item));
                assert(drifted_items(dv).take(j + 1) =~= drifted_items(dv).take(j as int).push(
                    drifted_items(dv)[j as int],
                ));
                j = j + 1;
            }
            assert(drifted_items(dv).take(drifted.len() as int) =~= drifted_items(dv));
        }
        out
    }

    /// What is shown before drift is reconciled: that there is none, or
    /// each change of `report`; and whether there is anything to reconcile.
    pub fn reconcile_preview(report: &DriftReport) -> (r: (Vec<OutputLine>, bool))
        ensures
            r.1 == report.has_drift,
            !report.has_drift ==> lines_view(r.0@) == seq![
                LineView::Success("No drift detected. Infrastructure matches configuration."@),
            ],
            report.has_drift ==> lines_view(r.0@) == seq![
                LineView::Info("Detected "@ + decimal(report.changes@.len()) + " change(s) in infrastructure"@),
                LineView::Blank,
            ] + changes_view(report.changes@).map_values(|c: ChangeView| reconcile_line(c)) + seq![
                LineView::Blank,
            ],
    {
        let mut out: Vec<OutputLine> = Vec::new();
        assert(lines_view(out@) =~= Seq::<LineView>::empty());
        if !report.has_drift {
            emit(&mut out, OutputLine::Success("No drift detected. Infrastructure matches configuration.".to_owned()));
            return (out, false);
        }
        let mut h = "Detected ".to_owned();
        h.append(usize_to_string(report.changes.len()).as_str());
        h.append(" change(s) in infrastructure");
        emit(&mut out, OutputLine::Info(h));
        emit(&mut out, OutputLine::Blank);
        let ghost head = lines_view(out@);
        let ghost cl = changes_view(report.changes@).map_values(|c: ChangeView| reconcile_line(c));
        let mut i: usize = 0;
        while i < report.changes.len()
            invariant
                0 <= i <= report.changes.len(),
                cl == changes_view(report.changes@).map_values(|c: ChangeView| reconcile_line(c)),
                lines_view(out@) == head + cl.take(i as int),
            decreases report.changes.len() - i,
        {
            let c = &report.changes[i];
            let mut l = Self::change_symbol(&c.change_type).to_owned();
            l.append(" ");
            l.append(c.resource_address.as_str());
            l.append(" [");
            l.append(c.attribute.as_str());
            l.append("]: ");
            l.append(c.expected.as_str());
            l.append(" → ");
            l.append(c.actual.as_str());
            emit(&mut out, OutputLine::Dimmed(l));
            assert(cl.take(i + 1) =~= cl.take(i as int).push(cl[i as int]));
            i = i + 1;
        }
        assert(cl.take(report.changes.len() as int) =~= cl);
        emit(&mut out, OutputLine::Blank);
        (out, true)
    }
}

/// The number of changes of all entries of `s`.
pub open spec fn total_changes(s: Seq<(String, usize)>) -> nat
    decreases s.len(),
{
    if s.len() == 0 {
        0
    } else {
        total_changes(s.drop_last()) + s.last().1 as nat
    }
}

/// The number of changes of all entries of `s`, as plain values.
pub open spec fn total_views(s: Seq<(Seq<char>, nat)>) -> nat
    decreases s.len(),
{
    if s.len() == 0 {
        0
    } else {
        total_views(s.drop_last()) + s.last().1
    }
}

/// A prefix counts no more changes than the whole.
pub proof fn lemma_total_prefix(s: Seq<(String, usize)>, k: int)
    requires
        0 <= k <= s.len(),
    ensures
        total_changes(s.take(k)) <= total_changes(s),
    decreases s.len() - k,
{
    if k < s.len() {
        lemma_total_prefix(s, k + 1);
        assert(s.take(k + 1).drop_last() =~= s.take(k));
    } else {
        assert(s.take(k) =~= s);
    }
}

/// Counting on plain values counts the same.
pub proof fn lemma_total_views(s: Seq<(String, usize)>)
    ensures
        total_views(s.map_values(|e: (String, usize)| (e.0@, e.1 as nat))) == total_changes(s),
    decreases s.len(),
{
    if s.len() > 0 {
        lemma_total_views(s.drop_last());
        assert(s.map_values(|e: (String, usize)| (e.0@, e.1 as nat)).drop_last() =~= s.drop_last().map_values(
            |e: (String, usize)| (e.0@, e.1 as nat),
        ));
    }
}

/// The list of drifted environments, as shown.
pub open spec fn drifted_items(s: Seq<(Seq<char>, nat)>) -> Seq<LineView> {
    s.map_values(|e: (Seq<char>, nat)| LineView::Info("• "@ + e.0 + " ("@ + decimal(e.1) + " changes)"@))
}

/// The summary of a drift check of every environment (`s`: the key and
/// number of changes of each one that drifted).
pub open spec fn all_projects_report(s: Seq<(Seq<char>, nat)>, format: Option<Seq<char>>) -> Seq<LineView> {
    if total_views(s) == 0 {
        seq![LineView::Success("No drift detected across all projects."@)]
    } else {
        seq![
            LineView::Error(
                "Drift detected in "@ + decimal(s.len()) + " project(s) with "@ + decimal(total_views(s))
                    + " total change(s)"@,
            ),
            LineView::Blank,
        ] + if is_text_format(format) {
            drifted_items(s)
        } else {
            Seq::empty()
        }
    }
}

} // verus!
