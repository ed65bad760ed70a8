//! The state backend of the OpenTofu executor of an infrastructure: which
//! questions each kind of backend asks, and the settings made from the
//! answers.

use vstd::prelude::*;
use crate::infrastructure::InfrastructureCommand;
use crate::json::JsonValue;
use crate::text::{str_eq, views_of};

verus! {

broadcast use vstd::string::group_string_axioms;

/// The executor settings of an infrastructure: the executor's name and its
/// configuration, entry by entry.
pub struct ExecutorCollectionConfig {
    pub name: String,
    pub config: Vec<(String, JsonValue)>,
}

/// A backend setting as a plain value: a text or a yes/no answer.
pub enum SettingView {
    Text(Seq<char>),
    Flag(bool),
}

/// The kinds of state backend, in the order they are offered.
pub open spec fn backend_kinds() -> Seq<Seq<char>> {
    seq!["s3"@, "azurerm"@, "gcs"@, "kubernetes"@, "pg"@, "consul"@, "http"@, "local"@]
}

/// The text questions that the backend `b` asks, in order, each with its
/// default answer.
pub open spec fn backend_questions(b: Seq<char>) -> Seq<(Seq<char>, Option<Seq<char>>)> {
    if b == "s3"@ {
        seq![
            ("S3 bucket name:"@, None),
            ("State file key:"@, Some("terraform.tfstate"@)),
            ("AWS region:"@, Some("us-east-1"@)),
            ("DynamoDB table for locking (optional):"@, None),
        ]
    } else if b == "azurerm"@ {
        seq![
            ("Storage account name:"@, None),
            ("Container name:"@, Some("tfstate"@)),
            ("State file key:"@, Some("terraform.tfstate"@)),
            ("Resource group name:"@, None),
        ]
    } else if b == "gcs"@ {
        seq![("GCS bucket name:"@, None), ("State file prefix:"@, Some("terraform/state"@))]
    } else if b == "kubernetes"@ {
        seq![("Secret suffix:"@, Some("state"@)), ("Namespace:"@, Some("default"@))]
    } else if b == "pg"@ {
        seq![("PostgreSQL connection string:"@, None), ("Schema name:"@, Some("terraform_remote_state"@))]
    } else if b == "consul"@ {
        seq![("Consul address:"@, Some("127.0.0.1:8500"@)), ("State path:"@, Some("terraform/state"@))]
    } else if b == "http"@ {
        seq![
            ("HTTP endpoint address:"@, None),
            ("Lock endpoint address (optional):"@, None),
            ("Unlock endpoint address (optional):"@, None),
        ]
    } else if b == "local"@ {
        seq![("Local state file path:"@, Some("terraform.tfstate"@))]
    } else {
        Seq::empty()
    }
}

/// The setting `key` holding the text `s`, left out when `s` is empty.
pub open spec fn optional_text(key: Seq<char>, s: Seq<char>) -> Seq<(Seq<char>, SettingView)> {
    if s.len() == 0 {
        Seq::empty()
    } else {
        seq![(key, SettingView::Text(s))]
    }
}

/// The settings of the backend `b` made from the answers `a` to its text
/// questions and, for S3, whether to encrypt the state.
pub open spec fn backend_settings(b: Seq<char>, a: Seq<Seq<char>>, encrypt: bool) -> Seq<(Seq<char>, SettingView)> {
    if b == "s3"@ {
        seq![
            ("bucket"@, SettingView::Text(a[0])),
            ("key"@, SettingView::Text(a[1])),
            ("region"@, SettingView::Text(a[2])),
            ("encrypt"@, SettingView::Flag(encrypt)),
        ] + optional_text("dynamodb_table"@, a[3])
    } else if b == "azurerm"@ {
        seq![
            ("storage_account_name"@, SettingView::Text(a[0])),
            ("container_name"@, SettingView::Text(a[1])),
            ("key"@, SettingView::Text(a[2])),
            ("resource_group_name"@, SettingView::Text(a[3])),
        ]
    } else if b == "gcs"@ {
        seq![("bucket"@, SettingView::Text(a[0])), ("prefix"@, SettingView::Text(a[1]))]
    } else if b == "kubernetes"@ {
        seq![("secret_suffix"@, SettingView::Text(a[0])), ("namespace"@, SettingView::Text(a[1]))]
    } else if b == "pg"@ {
        seq![("conn_str"@, SettingView::Text(a[0])), ("schema_name"@, SettingView::Text(a[1]))]
    } else if b == "consul"@ {
        seq![("address"@, SettingView::Text(a[0])), ("path"@, SettingView::Text(a[1]))]
    } else if b == "http"@ {
        seq![("address"@, SettingView::Text(a[0]))] + optional_text("lock_address"@, a[1]) + optional_text(
            "unlock_address"@,
            a[2],
        )
    } else if b == "local"@ {
        seq![("path"@, SettingView::Text(a[0]))]
    } else {
        Seq::empty()
    }
}

/// A configuration entry as plain values, when it holds a text or a yes/no.
pub open spec fn setting_of(e: (String, JsonValue)) -> Option<(Seq<char>, SettingView)> {
    match e.1 {
        JsonValue::Str(s) => Some((e.0@, SettingView::Text(s@))),
        JsonValue::Bool(b) => Some((e.0@, SettingView::Flag(b))),
        _ => None,
    }
}

/// Whether the entries `o` are the settings `ss`, one for one.
pub open spec fn entries_are(o: Seq<(String, JsonValue)>, ss: Seq<(Seq<char>, SettingView)>) -> bool {
    o.len() == ss.len() && forall|i: int| 0 <= i < o.len() ==> setting_of(#[trigger] o[i]) == Some(ss[i])
}

/// Whether `c` is the executor configuration for the backend `b` with the
/// answers `a` and `encrypt`: OpenTofu, with one `backend` entry whose object
/// gives the backend's type first and then its settings.
pub open spec fn executor_config_for(c: ExecutorCollectionConfig, b: Seq<char>, a: Seq<Seq<char>>, encrypt: bool) -> bool {
    &&& c.name@ == "opentofu"@
    &&& c.config@.len() == 1
    &&& c.config@[0].0@ == "backend"@
    &&& c.config@[0].1 matches JsonValue::Object(o) && o@.len() >= 1 && setting_of(o@[0]) == Some(
        ("type"@, SettingView::Text(b)),
    ) && entries_are(o@.skip(1), backend_settings(b, a, encrypt))
}

/// A text setting.
fn text_entry(key: &str, value: &String) -> (r: (String, JsonValue))
    ensures
        setting_of(r) == Some((key@, SettingView::Text(value@))),
{
    (key.to_owned(), JsonValue::Str(value.clone()))
}

/// Appends the text setting `key` unless `value` is empty.
fn push_optional(out: &mut Vec<(String, JsonValue)>, key: &str, value: &String)
    ensures
        final(out)@.len() == old(out)@.len() + optional_text(key@, value@).len(),
        final(out)@.take(old(out)@.len() as int) == old(out)@,
        forall|i: int|
            0 <= i < optional_text(key@, value@).len() ==> setting_of(#[trigger] final(out)@[old(out)@.len() + i])
                == Some(optional_text(key@, value@)[i]),
{
    if value.as_str().unicode_len() > 0 {
        out.push(text_entry(key, value));
        assert(out@.take(old(out)@.len() as int) =~= old(out)@);
    } else {
        assert(out@.take(old(out)@.len() as int) =~= old(out)@);
    }
}

impl InfrastructureCommand {
    /// The kinds of state backend, in the order they are offered.
    pub fn backend_types() -> (r: Vec<String>)
        ensures
            views_of(r@) == backend_kinds(),
    {
        let mut v: Vec<String> = Vec::new();
        v.push("s3".to_owned());
        v.push("azurerm".to_owned());
        v.push("gcs".to_owned());
        v.push("kubernetes".to_owned());
        v.push("pg".to_owned());
        v.push("consul".to_owned());
        v.push("http".to_owned());
        v.push("local".to_owned());
        assert(views_of(v@) =~= backend_kinds());
        v
    }

    /// The executor configuration for the backend `backend_type`, from the
    /// answers to its text questions (`backend_questions`, in order) and,
    /// for S3, whether to encrypt the state.
    pub fn collect_executor_config(backend_type: &str, answers: &Vec<String>, encrypt: bool) -> (r:
        ExecutorCollectionConfig)
        requires
            answers@.len() == backend_questions(backend_type@).len(),
        ensures
            executor_config_for(r, backend_type@, views_of(answers@), encrypt),
    {
        let ghost a = views_of(answers@);
        let ghost b = backend_type@;
        proof {
            reveal_strlit("s3");
            reveal_strlit("azurerm");
            reveal_strlit("gcs");
            reveal_strlit("kubernetes");
            reveal_strlit("pg");
            reveal_strlit("consul");
            reveal_strlit("http");
            reveal_strlit("local");
        }
        let mut o: Vec<(String, JsonValue)> = Vec::new();
        o.push(text_entry("type", &backend_type.to_owned()));
        let ghost head = o@;
        if str_eq(backend_type, "s3") {
            assert(a[0] == answers@[0]@ && a[1] == answers@[1]@ && a[2] == answers@[2]@ && a[3] == answers@[3]@);
            o.push(text_entry("bucket", &answers[0]));
            o.push(text_entry("key", &answers[1]));
            o.push(text_entry("region", &answers[2]));
            o.push(("encrypt".to_owned(), JsonValue::Bool(encrypt)));
            let ghost before = o@;
            push_optional(&mut o, "dynamodb_table", &answers[3]);
            proof {
                assert(o@[0] == before[0]);
                let ss = optional_text("dynamodb_table"@, a[3]);
                assert(o@[0] == head[0]);
                let all = backend_settings(b, a, encrypt);
                assert(all.len() == 4 + ss.len());
                assert forall|i: int| 0 <= i < o@.skip(1).len() implies setting_of(#[trigger] o@.skip(1)[i])
                    == Some(all[i]) by {
                    if i < 4 {
                        assert(o@.skip(1)[i] == before[i + 1]);
                    } else {
                        assert(o@.skip(1)[i] == o@[before.len() + (i - 4)]);
                    }
                }
            }
        } else if str_eq(backend_type, "azurerm") {
            o.push(text_entry("storage_account_name", &answers[0]));
            o.push(text_entry("container_name", &answers[1]));
            o.push(text_entry("key", &answers[2]));
            o.push(text_entry("resource_group_name", &answers[3]));
            proof {
                assert(o@[0] == head[0]);
                let all = backend_settings(b, a, encrypt);
                assert forall|i: int| 0 <= i < o@.skip(1).len() implies setting_of(#[trigger] o@.skip(1)[i])
                    == Some(all[i]) by {
                    assert(o@.skip(1)[i] == o@[i + 1]);
                }
                assert(o@.skip(1).len() == all.len());
            }
        } else if str_eq(backend_type, "gcs") {
            o.push(text_entry("bucket", &answers[0]));
            o.push(text_entry("prefix", &answers[1]));
            proof {
                assert(o@[0] == head[0]);
                let all = backend_settings(b, a, encrypt);
                assert forall|i: int| 0 <= i < o@.skip(1).len() implies setting_of(#[trigger] o@.skip(1)[i])
                    == Some(all[i]) by {
                    assert(o@.skip(1)[i] == o@[i + 1]);
                }
                assert(o@.skip(1).len() == all.len());
            }
        } else if str_eq(backend_type, "kubernetes") {
            o.push(text_entry("secret_suffix", &answers[0]));
            o.push(text_entry("namespace", &answers[1]));
            proof {
                assert(o@[0] == head[0]);
                let all = backend_settings(b, a, encrypt);
                assert forall|i: int| 0 <= i < o@.skip(1).len() implies setting_of(#[trigger] o@.skip(1)[i])
                    == Some(all[i]) by {
                    assert(o@.skip(1)[i] == o@[i + 1]);
                }
                assert(o@.skip(1).len() == all.len());
            }
        } else if str_eq(backend_type, "pg") {
            o.push(text_entry("conn_str", &answers[0]));
            o.push(text_entry("schema_name", &answers[1]));
            proof {
                assert(o@[0] == head[0]);
                let all = backend_settings(b, a, encrypt);
                assert forall|i: int| 0 <= i < o@.skip(1).len() implies setting_of(#[trigger] o@.skip(1)[i])
                    == Some(all[i]) by {
                    assert(o@.skip(1)[i] == o@[i + 1]);
                }
                assert(o@.skip(1).len() == all.len());
            }
        } else if str_eq(backend_type, "consul") {
            o.push(text_entry("address", &answers[0]));
            o.push(text_entry("path", &answers[1]));
            proof {
                assert(o@[0] == head[0]);
                let all = backend_settings(b, a, encrypt);
                assert forall|i: int| 0 <= i < o@.skip(1).len() implies setting_of(#[trigger] o@.skip(1)[i])
                    == Some(all[i]) by {
                    assert(o@.skip(1)[i] == o@[i + 1]);
                }
                assert(o@.skip(1).len() == all.len());
            }
        } else if str_eq(backend_type, "http") {
            o.push(text_entry("address", &answers[0]));
            let ghost b1 = o@;
            push_optional(&mut o, "lock_address", &answers[1]);
            let ghost b2 = o@;
            push_optional(&mut o, "unlock_address", &answers[2]);
            proof {
                assert(o@[0] == b2[0] && b2[0] == b1[0]);
                let s1 = optional_text("lock_address"@, a[1]);
                let s2 = optional_text("unlock_address"@, a[2]);
                assert(o@[0] == head[0]);
                let all = backend_settings(b, a, encrypt);
                assert(all =~= seq![("address"@, SettingView::Text(a[0]))] + s1 + s2);
                assert forall|i: int| 0 <= i < o@.skip(1).len() implies setting_of(#[trigger] o@.skip(1)[i])
                    == Some(all[i]) by {
                    if i < 1 {
                        assert(o@.skip(1)[i] == b1[i + 1]);
                    } else if i < 1 + s1.len() {
                        assert(o@.skip(1)[i] == b2[b1.len() + (i - 1)]);
                    } else {
                        assert(o@.skip(1)[i] == o@[b2.len() + (i - 1 - s1.len())]);
                    }
                }
            }
        } else if str_eq(backend_type, "local") {
            o.push(text_entry("path", &answers[0]));
            proof {
                assert(o@[0] == head[0]);
                let all = backend_settings(b, a, encrypt);
                assert forall|i: int| 0 <= i < o@.skip(1).len() implies setting_of(#[trigger] o@.skip(1)[i])
                    == Some(all[i]) by {
                    assert(o@.skip(1)[i] == o@[i + 1]);
                }
                assert(o@.skip(1).len() == all.len());
            }
        }
        let mut config: Vec<(String, JsonValue)> = Vec::new();
        config.push(("backend".to_owned(), JsonValue::Object(o)));
        ExecutorCollectionConfig { name: "opentofu".to_owned(), config }
    }
}

} // verus!
