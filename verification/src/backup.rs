//! Backups of environments: their records, which files a backup takes,
//! which backups are listed and how they read.

use vstd::prelude::*;
use crate::output::{emit, lines_view, LineView, OutputLine};
use crate::paths::{extension_of, extension_spec, file_name_spec, join, join_spec};
use crate::resources::EnvironmentResource;
use crate::stamps::{current_user, is_hyphenated_uuid, new_uuid, now_rfc3339};
use crate::text::trim_spec;
use crate::records::{insert_newest_first, newest_first, Dated};
use crate::text::{decimal, digit_char, str_eq, to_chars, u64_to_string, usize_to_string};

verus! {

broadcast use vstd::string::group_string_axioms;

/// Creates, lists, restores and deletes backups.
pub struct BackupCommand;

/// What a backup holds.
pub enum BackupType {
    /// The whole environment directory.
    Full,
    /// The state file only.
    State,
    /// The configuration files only.
    Configuration,
}

/// Facts recorded about a backup's contents.
pub struct BackupMetadata {
    pub resource_count: usize,
    pub state_version: Option<String>,
    pub terraform_version: Option<String>,
    pub checksum: String,
}

/// A backup of one environment.
pub struct Backup {
    pub id: String,
    pub project: String,
    pub environment: String,
    pub created_at: String,
    pub created_by: String,
    pub backup_type: BackupType,
    pub size_bytes: u64,
    pub description: Option<String>,
    pub metadata: BackupMetadata,
}

/// The name of a backup type, as it is shown.
pub open spec fn type_name_spec(t: BackupType) -> Seq<char> {
    match t {
        BackupType::Full => "Full"@,
        BackupType::State => "State"@,
        BackupType::Configuration => "Configuration"@,
    }
}

/// The three words that name backup types differ.
proof fn lemma_type_words_differ()
    ensures
        "full"@ != "state"@,
        "full"@ != "configuration"@,
        "state"@ != "configuration"@,
{
    reveal_strlit("full");
    reveal_strlit("state");
    reveal_strlit("configuration");
    assert("full"@.len() != "state"@.len());
    assert("full"@.len() != "configuration"@.len());
    assert("state"@.len() != "configuration"@.len());
}

impl BackupType {
    /// The name of this backup type, as it is shown.
    pub fn name(&self) -> (r: &'static str)
        ensures
            r@ == type_name_spec(*self),
    {
        match self {
            BackupType::Full => "Full",
            BackupType::State => "State",
            BackupType::Configuration => "Configuration",
        }
    }

    /// The backup type a command line names: `full`, `state` or
    /// `configuration`; any other word, or none, is left to the user to pick.
    pub fn from_option(s: Option<&str>) -> (r: Option<BackupType>)
        ensures
            r matches Some(BackupType::Full) <==> (s matches Some(x) && x@ == "full"@),
            r matches Some(BackupType::State) <==> (s matches Some(x) && x@ == "state"@),
            r matches Some(BackupType::Configuration) <==> (s matches Some(x) && x@
                == "configuration"@),
    {
        proof {
            lemma_type_words_differ();
        }
        match s {
            Some(x) => {
                if str_eq(x, "full") {
                    Some(BackupType::Full)
                } else if str_eq(x, "state") {
                    Some(BackupType::State)
                } else if str_eq(x, "configuration") {
                    Some(BackupType::Configuration)
                } else {
                    None
                }
            },
            None => None,
        }
    }

    /// The backup type the user picked from `full`, `state` and
    /// `configuration`; anything else counts as `configuration`.
    pub fn from_selection(s: &str) -> (r: BackupType)
        ensures
            r is Full <==> s@ == "full"@,
            r is State <==> s@ == "state"@,
            r is Configuration <==> (s@ != "full"@ && s@ != "state"@),
    {
        proof {
            lemma_type_words_differ();
        }
        if str_eq(s, "full") {
            BackupType::Full
        } else if str_eq(s, "state") {
            BackupType::State
        } else {
            BackupType::Configuration
        }
    }
}

/// `n` rounded to the nearest integer, ties to the even one: the quotient
/// `q` and remainder `r` of a division by `d`.
pub open spec fn round_half_even(q: nat, r: nat, d: nat) -> nat {
    if 2 * r > d || (2 * r == d && q % 2 == 1) {
        q + 1
    } else {
        q
    }
}

/// `bytes` in mebibytes, in hundredths, rounded to the nearest (ties to even).
pub open spec fn mebibyte_hundredths(bytes: nat) -> nat {
    round_half_even(bytes * 100 / 1048576, bytes * 100 % 1048576, 1048576)
}

/// `h` hundredths written with two decimals.
pub open spec fn two_decimals(h: nat) -> Seq<char> {
    decimal(h / 100) + seq!['.', digit_char((h % 100) / 10), digit_char(h % 10)]
}

/// `bytes` in mebibytes with two decimals, as `{:.2}` prints
/// `bytes as f64 / 1024.0 / 1024.0`.
pub fn megabytes(bytes: u64) -> (r: String)
    ensures
        r@ == two_decimals(mebibyte_hundredths(bytes as nat)),
{
    let x: u128 = (bytes as u128) * 100;
    let q: u128 = x / 1048576;
    let rem: u128 = x % 1048576;
    let h: u128 = if 2 * rem > 1048576 || (2 * rem == 1048576 && q % 2 == 1) {
        q + 1
    } else {
        q
    };
    assert(h == mebibyte_hundredths(bytes as nat));
    assert(h <= 10000000000000000000000u128) by (nonlinear_arith)
        requires
            x == (bytes as u128) * 100,
            q == x / 1048576,
            h <= q + 1,
            bytes <= 18446744073709551615u64,
    ;
    let whole: u128 = h / 100;
    let frac: u128 = h % 100;
    assert(whole < 18446744073709551616u128);
    let mut out = u64_to_string(whole as u64);
    let mut tail: Vec<char> = Vec::new();
    tail.push('.');
    tail.push(digit_of((frac / 10) as usize));
    tail.push(digit_of((frac % 10) as usize));
    let t = crate::text::string_from_chars(tail.as_slice());
    out.append(t.as_str());
    assert(out@ =~= two_decimals(h as nat));
    out
}

fn digit_of(d: usize) -> (c: char)
    requires
        d < 10,
    ensures
        c == digit_char(d as nat),
{
    if d == 0 {
        '0'
    } else if d == 1 {
        '1'
    } else if d == 2 {
        '2'
    } else if d == 3 {
        '3'
    } else if d == 4 {
        '4'
    } else if d == 5 {
        '5'
    } else if d == 6 {
        '6'
    } else if d == 7 {
        '7'
    } else if d == 8 {
        '8'
    } else {
        '9'
    }
}

/// Whether the file `p` is a configuration file: its extension is `tf`,
/// `yaml` or `yml`.
pub open spec fn is_config_file_spec(p: Seq<char>) -> bool {
    match extension_spec(file_name_spec(p)) {
        Some(e) => e == "tf"@ || e == "yaml"@ || e == "yml"@,
        None => false,
    }
}

/// Whether backup `b` passes the project and environment filters.
pub open spec fn passes(b: Backup, project: Option<Seq<char>>, env: Option<Seq<char>>) -> bool {
    (project matches Some(p) ==> b.project@ == p) && (env matches Some(e) ==> b.environment@ == e)
}

/// The backups of `s`, in order, that pass the filters.
pub open spec fn filtered_backups(s: Seq<Backup>, project: Option<Seq<char>>, env: Option<Seq<char>>) -> Seq<Backup>
    decreases s.len(),
{
    if s.len() == 0 {
        Seq::empty()
    } else {
        let rest = filtered_backups(s.drop_last(), project, env);
        if passes(s.last(), project, env) {
            rest.push(s.last())
        } else {
            rest
        }
    }
}

/// The view of an optional string.
pub open spec fn opt_str(s: Option<&str>) -> Option<Seq<char>> {
    match s {
        Some(x) => Some(x@),
        None => None,
    }
}

/// The lines shown for one backup in the list.
pub open spec fn backup_lines(b: Backup) -> Seq<LineView> {
    seq![
        LineView::Dimmed("["@ + b.id@ + "] "@ + type_name_spec(b.backup_type)),
        LineView::Dimmed("  "@ + b.project@ + "/"@ + b.environment@),
        LineView::Dimmed("  Created: "@ + b.created_at@ + " by "@ + b.created_by@),
        LineView::Dimmed(
            "  Size: "@ + two_decimals(mebibyte_hundredths(b.size_bytes as nat)) + " MB, "@ + decimal(
                b.metadata.resource_count as nat,
            ) + " resources"@,
        ),
    ] + match b.description {
        Some(d) => seq![LineView::Dimmed("  "@ + d@)],
        None => Seq::empty(),
    } + seq![LineView::Blank]
}

/// The lines shown for the backups `s`, one after another.
pub open spec fn backups_lines(s: Seq<Backup>) -> Seq<LineView>
    decreases s.len(),
{
    if s.len() == 0 {
        Seq::empty()
    } else {
        backups_lines(s.drop_last()) + backup_lines(s.last())
    }
}

/// The list of backups as it is shown.
pub open spec fn list_report(s: Seq<Backup>) -> Seq<LineView> {
    if s.len() == 0 {
        seq![LineView::Info("No backups found"@)]
    } else {
        seq![LineView::Subsection("Available Backups"@), LineView::Blank] + backups_lines(s) + seq![
            LineView::Success(decimal(s.len()) + " backups found"@),
        ]
    }
}

/// The details shown for a backup before it is deleted.
pub open spec fn delete_details(b: Backup) -> Seq<LineView> {
    seq![
        LineView::KeyValue("Backup ID"@, b.id@),
        LineView::KeyValue("Project"@, b.project@),
        LineView::KeyValue("Environment"@, b.environment@),
        LineView::KeyValue("Created"@, b.created_at@),
        LineView::Blank,
    ]
}

/// The directory that holds the backups of the infrastructure at `root`.
pub open spec fn backups_dir_of(root: Seq<char>) -> Seq<char> {
    join_spec(join_spec(root, ".pmp"@), "backups"@)
}

/// Whether the file `p` is a configuration file (`.tf`, `.yaml`, `.yml`).
pub fn is_config_file(p: &str) -> (r: bool)
    ensures
        r == is_config_file_spec(p@),
{
    match extension_of(p) {
        Some(ext) => str_eq(ext.as_str(), "tf") || str_eq(ext.as_str(), "yaml") || str_eq(ext.as_str(), "yml"),
        None => false,
    }
}

impl Dated for Backup {
    open spec fn date(&self) -> Seq<char> {
        self.created_at@
    }

    fn created_at(&self) -> (r: &str) {
        self.created_at.as_str()
    }
}

impl BackupCommand {
    /// A record of a new backup of the environment `resource`, with the id
    /// `backup-{uid}`. The archive is not measured yet: the record carries
    /// fixed example figures (12 resources, 5 MiB).
    pub fn new_backup(
        uid: &str,
        resource: &EnvironmentResource,
        created_at: String,
        created_by: String,
        backup_type: BackupType,
        description: Option<String>,
    ) -> (r: Backup)
        ensures
            r.id@ == "backup-"@ + uid@,
            r.project@ == resource.metadata.name@,
            r.environment@ == resource.metadata.environment_name@,
            r.created_at == created_at,
            r.created_by == created_by,
            r.backup_type == backup_type,
            r.description == description,
            r.size_bytes == 5242880,
            r.metadata.resource_count == 12,
    {
        let mut id = "backup-".to_owned();
        id.append(uid);
        Backup {
            id,
            project: resource.metadata.name.clone(),
            environment: resource.metadata.environment_name.clone(),
            created_at,
            created_by,
            backup_type,
            size_bytes: 1024 * 1024 * 5,
            description,
            metadata: BackupMetadata {
                resource_count: 12,
                state_version: Some("4".to_owned()),
                terraform_version: Some("1.5.0".to_owned()),
                checksum: "abc123def456".to_owned(),
            },
        }
    }

    /// A record of a new backup of the environment `resource`, made now by
    /// the user who acts (`git_email`: what `git config user.email` printed,
    /// when it ran), with a fresh id `backup-{uuid}`.
    pub fn create_backup(
        resource: &EnvironmentResource,
        backup_type: BackupType,
        description: Option<String>,
        git_email: Option<&str>,
    ) -> (r: Backup)
        ensures
            r.id@.len() == 43 && r.id@.take(7) == "backup-"@ && is_hyphenated_uuid(r.id@.skip(7)),
            r.project@ == resource.metadata.name@,
            r.environment@ == resource.metadata.environment_name@,
            r.backup_type == backup_type,
            r.description == description,
            r.size_bytes == 5242880,
            r.metadata.resource_count == 12,
            git_email matches Some(e) ==> (trim_spec(e@).len() > 0 ==> r.created_by@ == trim_spec(e@)),
    {
        let user = current_user(git_email);
        let uid = new_uuid();
        let created_at = now_rfc3339();
        let r = Self::new_backup(uid.as_str(), resource, created_at, user, backup_type, description);
        proof {
            reveal_strlit("backup-");
            assert(r.id@.take(7) =~= "backup-"@);
            assert(r.id@.skip(7) =~= uid@);
        }
        r
    }

    /// The backups that pass the project and environment filters, newest
    /// first.
    pub fn select_backups(
        backups: Vec<Backup>,
        project_filter: Option<&str>,
        environment_filter: Option<&str>,
    ) -> (r: Vec<Backup>)
        ensures
            newest_first(r@),
            r@.to_multiset() == filtered_backups(
                backups@,
                opt_str(project_filter),
                opt_str(environment_filter),
            ).to_multiset(),
    {
        let ghost orig = backups@;
        let ghost pf = opt_str(project_filter);
        let ghost ef = opt_str(environment_filter);
        assert(orig.len() == backups.len());
        let mut rest = backups;
        let mut out: Vec<Backup> = Vec::new();
        let mut k: usize = 0;
        proof {
            broadcast use vstd::seq_lib::group_to_multiset_ensures;
            assert(orig.take(0) =~= Seq::<Backup>::empty());
            assert(orig.skip(0) =~= orig);
        }
        while rest.len() > 0
            invariant
                k + rest@.len() == orig.len(),
                orig.len() <= usize::MAX,
                rest@ == orig.skip(k as int),
                newest_first(out@),
                out@.to_multiset() == filtered_backups(orig.take(k as int), pf, ef).to_multiset(),
                pf == opt_str(project_filter),
                ef == opt_str(environment_filter),
            decreases rest.len(),
        {
            let b = rest.remove(0);
            proof {
                assert(b == orig[k as int]);
                assert(rest@ =~= orig.skip(k + 1));
                assert(orig.take(k + 1).drop_last() =~= orig.take(k as int));
                assert(orig.take(k + 1).last() == b);
            }
            let keep_p = match project_filter {
                Some(p) => str_eq(b.project.as_str(), p),
                None => true,
            };
            let keep_e = match environment_filter {
                Some(e) => str_eq(b.environment.as_str(), e),
                None => true,
            };
            let ghost bb = b;
            let ghost f0 = filtered_backups(orig.take(k as int), pf, ef);
            assert(keep_p && keep_e <==> passes(bb, pf, ef));
            if keep_p && keep_e {
                insert_newest_first(&mut out, b);
                proof {
                    broadcast use vstd::seq_lib::group_to_multiset_ensures;
                    assert(filtered_backups(orig.take(k + 1), pf, ef) == f0.push(bb));
                    assert(f0.push(bb).to_multiset() == f0.to_multiset().insert(bb));
                }
            }
            k = k + 1;
        }
        assert(orig.take(k as int) =~= orig);
        out
    }

    /// The list of the backups `backups` that pass the project and
    /// environment filters, newest first.
    pub fn execute_list(
        backups: Vec<Backup>,
        project_filter: Option<&str>,
        environment_filter: Option<&str>,
    ) -> (r: Vec<OutputLine>)
        ensures
            exists|s: Seq<Backup>|
                newest_first(s) && s.to_multiset() == filtered_backups(
                    backups@,
                    opt_str(project_filter),
                    opt_str(environment_filter),
                ).to_multiset() && lines_view(r@) == list_report(s),
    {
        let selected = Self::select_backups(backups, project_filter, environment_filter);
        let mut out: Vec<OutputLine> = Vec::new();
        if selected.len() == 0 {
            emit(&mut out, OutputLine::Info("No backups found".to_owned()));
            assert(lines_view(out@) =~= list_report(selected@));
            return out;
        }
        emit(&mut out, OutputLine::Subsection("Available Backups".to_owned()));
        emit(&mut out, OutputLine::Blank);
        let ghost head = lines_view(out@);
        let mut i: usize = 0;
        assert(selected@.take(0) =~= Seq::<Backup>::empty());
        while i < selected.len()
            invariant
                0 <= i <= selected.len(),
                lines_view(out@) == head + backups_lines(selected@.take(i as int)),
            decreases selected.len() - i,
        {
            let b = &selected[i];
            assert(selected@.take(i + 1).drop_last() =~= selected@.take(i as int));
            assert(selected@.take(i + 1).last() == *b);
            let ghost before = lines_view(out@);
            let mut l1 = "[".to_owned();
            l1.append(b.id.as_str());
            l1.append("] ");
            l1.append(b.backup_type.name());
            emit(&mut out, OutputLine::Dimmed(l1));
            let mut l2 = "  ".to_owned();
            l2.append(b.project.as_str());
            l2.append("/");
            l2.append(b.environment.as_str());
            emit(&mut out, OutputLine::Dimmed(l2));
            let mut l3 = "  Created: ".to_owned();
            l3.append(b.created_at.as_str());
            l3.append(" by ");
            l3.append(b.created_by.as_str());
            emit(&mut out, OutputLine::Dimmed(l3));
            let mut l4 = "  Size: ".to_owned();
            l4.append(megabytes(b.size_bytes).as_str());
            l4.append(" MB, ");
            l4.append(usize_to_string(b.metadata.resource_count).as_str());
            l4.append(" resources");
            emit(&mut out, OutputLine::Dimmed(l4));
            match &b.description {
                Some(d) => {
                    let mut l5 = "  ".to_owned();
                    l5.append(d.as_str());
                    emit(&mut out, OutputLine::Dimmed(l5));
                },
                None => {},
            }
            emit(&mut out, OutputLine::Blank);
            assert(lines_view(out@) =~= before + backup_lines(*b));
            assert(lines_view(out@) =~= head + backups_lines(selected@.take(i + 1)));
            i = i + 1;
        }
        assert(selected@.take(selected@.len() as int) =~= selected@);
        let mut s = usize_to_string(selected.len());
        s.append(" backups found");
        emit(&mut out, OutputLine::Success(s));
        assert(lines_view(out@) =~= list_report(selected@));
        out
    }

    /// What deleting `backup` shows and whether it goes ahead: the backup's
    /// details, then the deletion happens when forced or confirmed, and is
    /// reported cancelled otherwise.
    pub fn execute_delete(backup: &Backup, force: bool, confirmed: bool) -> (r: (Vec<OutputLine>, bool))
        ensures
            r.1 == (force || confirmed),
            lines_view(r.0@) == delete_details(*backup) + if r.1 {
                Seq::<LineView>::empty()
            } else {
                seq![LineView::Info("Deletion cancelled"@)]
            },
    {
        let mut out: Vec<OutputLine> = Vec::new();
        emit(&mut out, OutputLine::KeyValue("Backup ID".to_owned(), backup.id.clone()));
        emit(&mut out, OutputLine::KeyValue("Project".to_owned(), backup.project.clone()));
        emit(&mut out, OutputLine::KeyValue("Environment".to_owned(), backup.environment.clone()));
        emit(&mut out, OutputLine::KeyValue("Created".to_owned(), backup.created_at.clone()));
        emit(&mut out, OutputLine::Blank);
        let go = force || confirmed;
        if !go {
            emit(&mut out, OutputLine::Info("Deletion cancelled".to_owned()));
        }
        assert(lines_view(out@) =~= delete_details(*backup) + if go {
            Seq::<LineView>::empty()
        } else {
            seq![LineView::Info("Deletion cancelled"@)]
        });
        (out, go)
    }

    /// The file that records the backup `id` of the infrastructure at `root`.
    pub fn metadata_file(root: &str, id: &str) -> (r: String)
        ensures
            r@ == join_spec(backups_dir_of(root@), id@ + ".json"@),
    {
        let dir = join(join(root, ".pmp").as_str(), "backups");
        let mut f = id.to_owned();
        f.append(".json");
        join(dir.as_str(), f.as_str())
    }

    /// The directory that holds the files of the backup `id`.
    pub fn data_dir(root: &str, id: &str) -> (r: String)
        ensures
            r@ == join_spec(backups_dir_of(root@), id@),
    {
        let dir = join(join(root, ".pmp").as_str(), "backups");
        join(dir.as_str(), id)
    }
}

} // verus!
