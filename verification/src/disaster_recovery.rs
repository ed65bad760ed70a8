//! Disaster recovery plans and their tests: the steps of a plan, how a test
//! run turns out, and how plans and results read.

use vstd::prelude::*;
use crate::output::{emit, lines_view, LineView, OutputLine};
use crate::records::{newest_first, sort_newest_first, Dated};
use crate::resources::EnvironmentResource;
use crate::stamps::{current_user, is_hyphenated_uuid, new_uuid, now_rfc3339};
use crate::text::{decimal, u64_to_string, usize_to_string};

verus! {

broadcast use vstd::string::group_string_axioms;

/// Generates, tests and lists disaster recovery plans.
pub struct DisasterRecoveryCommand;

/// One step of a recovery plan.
pub struct RecoveryStep {
    pub order: usize,
    pub title: String,
    pub description: String,
    pub estimated_duration_minutes: u32,
    pub automation_available: bool,
    pub validation_criteria: Vec<String>,
}

/// How to bring an environment back after a disaster.
pub struct DisasterRecoveryPlan {
    pub id: String,
    pub project: String,
    pub environment: String,
    pub created_at: String,
    pub created_by: String,
    pub rto_minutes: u32,
    pub rpo_minutes: u32,
    pub steps: Vec<RecoveryStep>,
}

/// How a test of a plan turned out.
pub enum TestStatus {
    Running,
    Passed,
    Failed,
    PartialSuccess,
}

/// How one step of a test turned out.
pub enum StepStatus {
    Success,
    Failed,
    Skipped,
}

/// The outcome of one step of a test.
pub struct StepResult {
    pub step_order: usize,
    pub status: StepStatus,
    pub duration_seconds: u32,
    pub notes: Option<String>,
}

/// A test run of a plan.
pub struct RecoveryTest {
    pub id: String,
    pub plan_id: String,
    pub started_at: String,
    pub completed_at: Option<String>,
    pub status: TestStatus,
    pub results: Vec<StepResult>,
}

impl Dated for DisasterRecoveryPlan {
    open spec fn date(&self) -> Seq<char> {
        self.created_at@
    }

    fn created_at(&self) -> (r: &str) {
        self.created_at.as_str()
    }
}

/// The name of a test status, as it is shown.
pub open spec fn test_status_name(s: TestStatus) -> Seq<char> {
    match s {
        TestStatus::Running => "Running"@,
        TestStatus::Passed => "Passed"@,
        TestStatus::Failed => "Failed"@,
        TestStatus::PartialSuccess => "PartialSuccess"@,
    }
}

/// Whether a step succeeds in a test run: every step does, but in a dry
/// run only automated steps do.
pub open spec fn step_succeeds(step: RecoveryStep, dry_run: bool) -> bool {
    !dry_run || step.automation_available
}

/// Whether the duration of every step, in seconds, fits a `u32`.
pub open spec fn durations_fit(steps: Seq<RecoveryStep>) -> bool {
    forall|i: int| 0 <= i < steps.len() ==> (#[trigger] steps[i]).estimated_duration_minutes * 60 <= u32::MAX
}

/// How many results of `s` have succeeded (`k` 0) or failed (`k` 1).
pub open spec fn count_status(s: Seq<StepResult>, k: nat) -> nat
    decreases s.len(),
{
    if s.len() == 0 {
        0
    } else {
        count_status(s.drop_last(), k) + if (k == 0 && s.last().status is Success) || (k == 1
            && s.last().status is Failed) {
            1nat
        } else {
            0nat
        }
    }
}

/// A count of results is at most the number of results.
pub proof fn lemma_count_status_bound(s: Seq<StepResult>, k: nat)
    ensures
        count_status(s, k) <= s.len(),
    decreases s.len(),
{
    if s.len() > 0 {
        lemma_count_status_bound(s.drop_last(), k);
    }
}

/// The title of the first step of `steps` with the order `order`, or
/// `Unknown`.
pub open spec fn title_of(steps: Seq<RecoveryStep>, order: usize) -> Seq<char>
    decreases steps.len(),
{
    if steps.len() == 0 {
        "Unknown"@
    } else if steps[0].order == order {
        steps[0].title@
    } else {
        title_of(steps.drop_first(), order)
    }
}

/// The symbol shown for a step's outcome.
pub open spec fn step_icon(s: StepStatus) -> Seq<char> {
    match s {
        StepStatus::Success => "✓"@,
        StepStatus::Failed => "✗"@,
        StepStatus::Skipped => "-"@,
    }
}

/// The line shown for one step result.
pub open spec fn result_line(steps: Seq<RecoveryStep>, r: StepResult) -> LineView {
    LineView::Dimmed(
        step_icon(r.status) + " Step "@ + decimal(r.step_order as nat) + ": "@ + title_of(
            steps,
            r.step_order,
        ) + " ("@ + decimal(r.duration_seconds as nat) + " seconds)"@,
    )
}

/// The lines shown for the results `s`.
pub open spec fn result_lines(steps: Seq<RecoveryStep>, s: Seq<StepResult>) -> Seq<LineView>
    decreases s.len(),
{
    if s.len() == 0 {
        Seq::empty()
    } else {
        result_lines(steps, s.drop_last()).push(result_line(steps, s.last()))
    }
}

/// The report of a test of `plan`.
pub open spec fn test_report(plan: DisasterRecoveryPlan, t: RecoveryTest) -> Seq<LineView> {
    let rs = t.results@;
    let failed = count_status(rs, 1);
    seq![LineView::Subsection("Test Results"@), LineView::Blank] + result_lines(plan.steps@, rs) + seq![
        LineView::Blank,
        LineView::KeyValue("Status"@, test_status_name(t.status)),
        LineView::KeyValue("Passed"@, decimal(count_status(rs, 0)) + "/"@ + decimal(rs.len())),
    ] + if failed > 0 {
        seq![LineView::Warning(decimal(failed) + " steps failed"@)]
    } else {
        Seq::empty()
    }
}

/// The lines shown for one plan in the list.
pub open spec fn plan_lines(p: DisasterRecoveryPlan) -> Seq<LineView> {
    seq![
        LineView::Dimmed("["@ + p.id@ + "]"@),
        LineView::Dimmed("  "@ + p.project@ + "/"@ + p.environment@),
        LineView::Dimmed(
            "  RTO: "@ + decimal(p.rto_minutes as nat) + " min, RPO: "@ + decimal(p.rpo_minutes as nat)
                + " min"@,
        ),
        LineView::Dimmed("  "@ + decimal(p.steps@.len()) + " steps"@),
        LineView::Blank,
    ]
}

/// The lines shown for the plans `s`, one after another.
pub open spec fn plans_lines(s: Seq<DisasterRecoveryPlan>) -> Seq<LineView>
    decreases s.len(),
{
    if s.len() == 0 {
        Seq::empty()
    } else {
        plans_lines(s.drop_last()) + plan_lines(s.last())
    }
}

/// The list of plans as it is shown.
pub open spec fn list_report(s: Seq<DisasterRecoveryPlan>) -> Seq<LineView> {
    if s.len() == 0 {
        seq![LineView::Info("No DR plans found"@)]
    } else {
        plans_lines(s) + seq![LineView::Success(decimal(s.len()) + " DR plans"@)]
    }
}

/// The total estimated duration of `steps`, in minutes.
pub open spec fn total_minutes(steps: Seq<RecoveryStep>) -> nat
    decreases steps.len(),
{
    if steps.len() == 0 {
        0
    } else {
        total_minutes(steps.drop_last()) + (steps.last().estimated_duration_minutes as nat)
    }
}

fn icon_of(s: &StepStatus) -> (r: &'static str)
    ensures
        r@ == step_icon(*s),
{
    match s {
        StepStatus::Success => "✓",
        StepStatus::Failed => "✗",
        StepStatus::Skipped => "-",
    }
}

impl TestStatus {
    /// The name of this status, as it is shown.
    pub fn name(&self) -> (r: &'static str)
        ensures
            r@ == test_status_name(*self),
    {
        match self {
            TestStatus::Running => "Running",
            TestStatus::Passed => "Passed",
            TestStatus::Failed => "Failed",
            TestStatus::PartialSuccess => "PartialSuccess",
        }
    }
}

fn step(
    order: usize,
    title: &str,
    description: &str,
    minutes: u32,
    automated: bool,
    check1: &str,
    check2: &str,
) -> (r: RecoveryStep)
    ensures
        r.order == order,
        r.title@ == title@,
        r.estimated_duration_minutes == minutes,
        r.automation_available == automated,
{
    let mut criteria: Vec<String> = Vec::new();
    criteria.push(check1.to_owned());
    criteria.push(check2.to_owned());
    RecoveryStep {
        order,
        title: title.to_owned(),
        description: description.to_owned(),
        estimated_duration_minutes: minutes,
        automation_available: automated,
        validation_criteria: criteria,
    }
}

/// The title of the first step of `steps` with the order `order`, or
/// `Unknown`.
fn find_title(steps: &Vec<RecoveryStep>, order: usize) -> (r: &str)
    ensures
        r@ == title_of(steps@, order),
{
    let mut i: usize = 0;
    assert(steps@.skip(0) =~= steps@);
    while i < steps.len()
        invariant
            0 <= i <= steps.len(),
            title_of(steps@, order) == title_of(steps@.skip(i as int), order),
        decreases steps.len() - i,
    {
        assert(steps@.skip(i as int)[0] == steps@[i as int]);
        assert(steps@.skip(i as int).drop_first() =~= steps@.skip(i + 1));
        if steps[i].order == order {
            return steps[i].title.as_str();
        }
        i = i + 1;
    }
    "Unknown"
}

/// Whether `r` is the standard recovery plan of the environment
/// `resource`, with the recovery time and point objectives given: eight
/// steps in order, 150 minutes in all.
pub open spec fn standard_plan(r: DisasterRecoveryPlan, resource: EnvironmentResource, rto_minutes: u32, rpo_minutes: u32) -> bool {
    &&& r.project@ == resource.metadata.name@
    &&& r.environment@ == resource.metadata.environment_name@
    &&& r.rto_minutes == rto_minutes
    &&& r.rpo_minutes == rpo_minutes
    &&& r.steps@.len() == 8
    &&& forall|i: int| 0 <= i < 8 ==> (#[trigger] r.steps@[i]).order == i + 1
    &&& total_minutes(r.steps@) == 150
    &&& durations_fit(r.steps@)
    &&& forall|i: int| 0 <= i < 8 ==> (#[trigger] r.steps@[i]).title@ == standard_step_title(i)
    &&& forall|i: int| 0 <= i < 8 ==> (#[trigger] r.steps@[i]).estimated_duration_minutes == standard_step_minutes(i)
    &&& forall|i: int| 0 <= i < 8 ==> ((#[trigger] r.steps@[i]).automation_available <==> 1 <= i <= 6)
}

/// The title of the step at `i` of a standard recovery plan.
pub open spec fn standard_step_title(i: int) -> Seq<char> {
    if i == 0 {
        "Assess Disaster Impact"@
    } else if i == 1 {
        "Activate DR Team"@
    } else if i == 2 {
        "Restore from Backup"@
    } else if i == 3 {
        "Apply Latest State"@
    } else if i == 4 {
        "Verify Resource Health"@
    } else if i == 5 {
        "Restore DNS/Traffic Routing"@
    } else if i == 6 {
        "Validate Application Functionality"@
    } else {
        "Document and Review"@
    }
}

/// The minutes that the step at `i` of a standard recovery plan is expected
/// to take.
pub open spec fn standard_step_minutes(i: int) -> u32 {
    if i == 0 {
        10
    } else if i == 1 {
        15
    } else if i == 2 {
        30
    } else if i == 3 {
        20
    } else if i == 4 {
        15
    } else if i == 5 {
        10
    } else if i == 6 {
        20
    } else {
        30
    }
}

/// Whether `r` is what testing `plan` gives (a dry run when `dry_run`):
/// a result per step, and the status that the results call for.
pub open spec fn test_outcome(plan: DisasterRecoveryPlan, dry_run: bool, r: RecoveryTest) -> bool {
    &&& r.plan_id@ == plan.id@
    &&& r.results@.len() == plan.steps@.len()
    &&& forall|i: int|
        0 <= i < r.results@.len() ==> {
            &&& (#[trigger] r.results@[i]).step_order == plan.steps@[i].order
            &&& (r.results@[i].status is Success) == step_succeeds(plan.steps@[i], dry_run)
            &&& (r.results@[i].status is Failed) == !step_succeeds(plan.steps@[i], dry_run)
            &&& r.results@[i].duration_seconds == plan.steps@[i].estimated_duration_minutes * 60
            &&& r.results@[i].notes is Some == dry_run
        }
    &&& (r.status is Passed <==> forall|i: int|
        0 <= i < plan.steps@.len() ==> step_succeeds(#[trigger] plan.steps@[i], dry_run))
    &&& (r.status is PartialSuccess <==> (exists|i: int|
        0 <= i < plan.steps@.len() && step_succeeds(#[trigger] plan.steps@[i], dry_run))
        && exists|i: int|
        0 <= i < plan.steps@.len() && !step_succeeds(#[trigger] plan.steps@[i], dry_run))
    &&& (r.status is Failed <==> plan.steps@.len() > 0 && forall|i: int|
        0 <= i < plan.steps@.len() ==> !step_succeeds(#[trigger] plan.steps@[i], dry_run))
}

/// Whether `id` is `prefix` followed by a fresh UUID.
pub open spec fn stamped_id(id: Seq<char>, prefix: Seq<char>) -> bool {
    id.len() == prefix.len() + 36 && id.take(prefix.len() as int) == prefix && is_hyphenated_uuid(
        id.skip(prefix.len() as int),
    )
}

impl DisasterRecoveryCommand {
    /// A recovery plan for the environment `resource`, with the id
    /// `dr-plan-{uid}`, made at `created_at` by `created_by`: the eight
    /// standard recovery steps, from assessing the damage to the review
    /// afterwards.
    pub fn plan_with_stamps(
        resource: &EnvironmentResource,
        rto_minutes: u32,
        rpo_minutes: u32,
        uid: &str,
        created_at: String,
        created_by: String,
    ) -> (r: DisasterRecoveryPlan)
        ensures
            r.id@ == "dr-plan-"@ + uid@,
            r.created_at == created_at,
            r.created_by == created_by,
            standard_plan(r, *resource, rto_minutes, rpo_minutes),
    {
        let mut steps: Vec<RecoveryStep> = Vec::new();
        steps.push(step(1, "Assess Disaster Impact", "Determine scope of disaster and affected resources", 10, false, "Documented list of affected resources", "Impact assessment complete"));
        steps.push(step(2, "Activate DR Team", "Notify and assemble disaster recovery team", 15, true, "All team members notified", "Communication channels established"));
        steps.push(step(3, "Restore from Backup", "Restore latest backup to recovery environment", 30, true, "Backup restored successfully", "Checksums verified"));
        steps.push(step(4, "Apply Latest State", "Apply Terraform/OpenTofu state to provision resources", 20, true, "All resources created", "No errors in apply"));
        steps.push(step(5, "Verify Resource Health", "Check that all resources are healthy and operational", 15, true, "All health checks passing", "Services responding"));
        steps.push(step(6, "Restore DNS/Traffic Routing", "Update DNS records to point to recovered infrastructure", 10, true, "DNS records updated", "Traffic flowing to new resources"));
        steps.push(step(7, "Validate Application Functionality", "Run smoke tests and validate end-to-end functionality", 20, true, "All smoke tests passing", "Critical user flows working"));
        steps.push(step(8, "Document and Review", "Document recovery process and identify improvements", 30, false, "Post-mortem document created", "Action items identified"));
        let mut id = "dr-plan-".to_owned();
        id.append(uid);
        proof {
            let s = steps@;
            assert(s.drop_last().drop_last().drop_last().drop_last().drop_last().drop_last().drop_last().drop_last().len() == 0);
            reveal_with_fuel(total_minutes, 9);
        }
        DisasterRecoveryPlan {
            id,
            project: resource.metadata.name.clone(),
            environment: resource.metadata.environment_name.clone(),
            created_at,
            created_by,
            rto_minutes,
            rpo_minutes,
            steps,
        }
    }

    /// Runs a test of `plan` (the id `dr-test-{uid}`, started at
    /// `started_at` and completed at `completed_at`). No step is carried
    /// out yet: each step succeeds, but in a dry run only automated steps
    /// do, taking its estimated time. The test passes when every step
    /// succeeds, partly succeeds when some do, and fails otherwise.
    pub fn test_with_stamps(
        plan: &DisasterRecoveryPlan,
        dry_run: bool,
        uid: &str,
        started_at: String,
        completed_at: String,
    ) -> (r: RecoveryTest)
        requires
            durations_fit(plan.steps@),
        ensures
            r.id@ == "dr-test-"@ + uid@,
            r.started_at == started_at,
            r.completed_at == Some(completed_at),
            test_outcome(*plan, dry_run, r),
    {
        let mut results: Vec<StepResult> = Vec::new();
        let mut all_passed = true;
        let mut any_passed = false;
        let mut i: usize = 0;
        while i < plan.steps.len()
            invariant
                0 <= i <= plan.steps.len(),
                durations_fit(plan.steps@),
                results@.len() == i,
                forall|j: int|
                    0 <= j < i ==> {
                        &&& (#[trigger] results@[j]).step_order == plan.steps@[j].order
                        &&& (results@[j].status is Success) == step_succeeds(plan.steps@[j], dry_run)
                        &&& (results@[j].status is Failed) == !step_succeeds(plan.steps@[j], dry_run)
                        &&& results@[j].duration_seconds == plan.steps@[j].estimated_duration_minutes
                            * 60
                        &&& results@[j].notes is Some == dry_run
                    },
                all_passed == forall|j: int| 0 <= j < i ==> step_succeeds(#[trigger] plan.steps@[j], dry_run),
                any_passed == exists|j: int| 0 <= j < i && step_succeeds(#[trigger] plan.steps@[j], dry_run),
            decreases plan.steps.len() - i,
        {
            let s = &plan.steps[i];
            let success = if dry_run {
                s.automation_available
            } else {
                true
            };
            assert(s.estimated_duration_minutes * 60 <= u32::MAX);
            results.push(
                StepResult {
                    step_order: s.order,
                    status: if success {
                        StepStatus::Success
                    } else {
                        StepStatus::Failed
                    },
                    duration_seconds: s.estimated_duration_minutes * 60,
                    notes: if dry_run {
                        Some("Dry run - no actual changes made".to_owned())
                    } else {
                        None
                    },
                },
            );
            all_passed = all_passed && success;
            any_passed = any_passed || success;
            i = i + 1;
        }
        proof {
            if plan.steps@.len() > 0 && !any_passed {
                assert(!step_succeeds(plan.steps@[0], dry_run));
            }
        }
        let status = if all_passed {
            TestStatus::Passed
        } else if any_passed {
            TestStatus::PartialSuccess
        } else {
            TestStatus::Failed
        };
        let mut id = "dr-test-".to_owned();
        id.append(uid);
        RecoveryTest {
            id,
            plan_id: plan.id.clone(),
            started_at,
            completed_at: Some(completed_at),
            status,
            results,
        }
    }

    /// A recovery plan for the environment `resource`, made now by the user
    /// who acts (`git_email`: what `git config user.email` printed, when it
    /// ran), with a fresh id `dr-plan-{uuid}`.
    pub fn generate_recovery_plan(
        resource: &EnvironmentResource,
        rto_minutes: u32,
        rpo_minutes: u32,
        git_email: Option<&str>,
    ) -> (r: DisasterRecoveryPlan)
        ensures
            stamped_id(r.id@, "dr-plan-"@),
            standard_plan(r, *resource, rto_minutes, rpo_minutes),
    {
        let user = current_user(git_email);
        let uid = new_uuid();
        let created_at = now_rfc3339();
        let r = Self::plan_with_stamps(resource, rto_minutes, rpo_minutes, uid.as_str(), created_at, user);
        proof {
            reveal_strlit("dr-plan-");
            assert(r.id@.take(8) =~= "dr-plan-"@);
            assert(r.id@.skip(8) =~= uid@);
        }
        r
    }

    /// Runs a test of `plan` now, with a fresh id `dr-test-{uuid}`.
    pub fn run_recovery_test(plan: &DisasterRecoveryPlan, dry_run: bool) -> (r: RecoveryTest)
        requires
            durations_fit(plan.steps@),
        ensures
            stamped_id(r.id@, "dr-test-"@),
            test_outcome(*plan, dry_run, r),
    {
        let uid = new_uuid();
        let started_at = now_rfc3339();
        let completed_at = now_rfc3339();
        let r = Self::test_with_stamps(plan, dry_run, uid.as_str(), started_at, completed_at);
        proof {
            reveal_strlit("dr-test-");
            assert(r.id@.take(8) =~= "dr-test-"@);
            assert(r.id@.skip(8) =~= uid@);
        }
        r
    }

    /// The report of the test `test` of `plan`: each step's outcome, the
    /// test's status, how many steps passed, and a warning when some failed.
    pub fn test_report(plan: &DisasterRecoveryPlan, test: &RecoveryTest) -> (r: Vec<OutputLine>)
        ensures
            lines_view(r@) == test_report(*plan, *test),
    {
        let mut out: Vec<OutputLine> = Vec::new();
        emit(&mut out, OutputLine::Subsection("Test Results".to_owned()));
        emit(&mut out, OutputLine::Blank);
        let ghost head = lines_view(out@);
        let rs = &test.results;
        let mut passed: usize = 0;
        let mut failed: usize = 0;
        let mut i: usize = 0;
        assert(rs@.take(0) =~= Seq::<StepResult>::empty());
        while i < rs.len()
            invariant
                0 <= i <= rs.len(),
                lines_view(out@) == head + result_lines(plan.steps@, rs@.take(i as int)),
                passed == count_status(rs@.take(i as int), 0),
                failed == count_status(rs@.take(i as int), 1),
            decreases rs.len() - i,
        {
            let r = &rs[i];
            assert(rs@.take(i + 1).drop_last() =~= rs@.take(i as int));
            assert(rs@.take(i + 1).last() == *r);
            proof {
                lemma_count_status_bound(rs@.take(i as int), 0);
                lemma_count_status_bound(rs@.take(i as int), 1);
            }
            let mut l = icon_of(&r.status).to_owned();
            l.append(" Step ");
            l.append(usize_to_string(r.step_order).as_str());
            l.append(": ");
            l.append(find_title(&plan.steps, r.step_order));
            l.append(" (");
            l.append(u64_to_string(r.duration_seconds as u64).as_str());
            l.append(" seconds)");
            emit(&mut out, OutputLine::Dimmed(l));
            match r.status {
                StepStatus::Success => {
                    passed = passed + 1;
                },
                StepStatus::Failed => {
                    failed = failed + 1;
                },
                StepStatus::Skipped => {},
            }
            assert(lines_view(out@) =~= head + result_lines(plan.steps@, rs@.take(i + 1)));
            i = i + 1;
        }
        assert(rs@.take(rs@.len() as int) =~= rs@);
        emit(&mut out, OutputLine::Blank);
        emit(&mut out, OutputLine::KeyValue("Status".to_owned(), test.status.name().to_owned()));
        let mut p = usize_to_string(passed);
        p.append("/");
        p.append(usize_to_string(rs.len()).as_str());
        emit(&mut out, OutputLine::KeyValue("Passed".to_owned(), p));
        if failed > 0 {
            let mut w = usize_to_string(failed);
            w.append(" steps failed");
            emit(&mut out, OutputLine::Warning(w));
        }
        assert(lines_view(out@) =~= test_report(*plan, *test));
        out
    }

    /// Tests `plan` now and reports how the test went; the test is returned
    /// to be kept.
    pub fn execute_test(plan: &DisasterRecoveryPlan, dry_run: bool) -> (r: (Vec<OutputLine>, RecoveryTest))
        requires
            durations_fit(plan.steps@),
        ensures
            stamped_id(r.1.id@, "dr-test-"@),
            test_outcome(*plan, dry_run, r.1),
            lines_view(r.0@) == seq![LineView::Dimmed("Starting DR test..."@), LineView::Blank]
                + test_report(*plan, r.1),
    {
        let test = Self::run_recovery_test(plan, dry_run);
        let mut out: Vec<OutputLine> = Vec::new();
        emit(&mut out, OutputLine::Dimmed("Starting DR test...".to_owned()));
        emit(&mut out, OutputLine::Blank);
        let report = Self::test_report(plan, &test);
        let ghost head = lines_view(out@);
        let mut rest = report;
        out.append(&mut rest);
        assert(lines_view(out@) =~= head + lines_view(report@));
        (out, test)
    }

    /// The plans `plans`, newest first, as they are listed.
    pub fn execute_list(plans: Vec<DisasterRecoveryPlan>) -> (r: Vec<OutputLine>)
        ensures
            exists|s: Seq<DisasterRecoveryPlan>|
                newest_first(s) && s.to_multiset() == plans@.to_multiset() && lines_view(r@)
                    == list_report(s),
    {
        let sorted = sort_newest_first(plans);
        let mut out: Vec<OutputLine> = Vec::new();
        if sorted.len() == 0 {
            emit(&mut out, OutputLine::Info("No DR plans found".to_owned()));
            assert(lines_view(out@) =~= list_report(sorted@));
            return out;
        }
        let mut i: usize = 0;
        assert(sorted@.take(0) =~= Seq::<DisasterRecoveryPlan>::empty());
        assert(lines_view(out@) =~= Seq::<LineView>::empty());
        while i < sorted.len()
            invariant
                0 <= i <= sorted.len(),
                lines_view(out@) == plans_lines(sorted@.take(i as int)),
            decreases sorted.len() - i,
        {
            let p = &sorted[i];
            assert(sorted@.take(i + 1).drop_last() =~= sorted@.take(i as int));
            assert(sorted@.take(i + 1).last() == *p);
            let ghost before = lines_view(out@);
            let mut l1 = "[".to_owned();
            l1.append(p.id.as_str());
            l1.append("]");
            emit(&mut out, OutputLine::Dimmed(l1));
            let mut l2 = "  ".to_owned();
            l2.append(p.project.as_str());
            l2.append("/");
            l2.append(p.environment.as_str());
            emit(&mut out, OutputLine::Dimmed(l2));
            let mut l3 = "  RTO: ".to_owned();
            l3.append(u64_to_string(p.rto_minutes as u64).as_str());
            l3.append(" min, RPO: ");
            l3.append(u64_to_string(p.rpo_minutes as u64).as_str());
            l3.append(" min");
            emit(&mut out, OutputLine::Dimmed(l3));
            let mut l4 = "  ".to_owned();
            l4.append(usize_to_string(p.steps.len()).as_str());
            l4.append(" steps");
            emit(&mut out, OutputLine::Dimmed(l4));
            emit(&mut out, OutputLine::Blank);
            assert(lines_view(out@) =~= before + plan_lines(*p));
            i = i + 1;
        }
        assert(sorted@.take(sorted@.len() as int) =~= sorted@);
        let mut s = usize_to_string(sorted.len());
        s.append(" DR plans");
        emit(&mut out, OutputLine::Success(s));
        assert(lines_view(out@) =~= list_report(sorted@));
        out
    }
}

} // verus!
