//! What records are stamped with: a fresh identifier, the present time and
//! the user who acts.

use vstd::prelude::*;
use crate::text::{trim, trim_spec};

verus! {

broadcast use vstd::string::group_string_axioms;

/// Whether `c` is a lower-case hexadecimal digit.
pub open spec fn is_lower_hex(c: char) -> bool {
    ('0' <= c && c <= '9') || ('a' <= c && c <= 'f')
}

/// Whether `s` is a UUID in hyphenated lower-case form: 36 characters,
/// hyphens at 8, 13, 18 and 23, hexadecimal digits elsewhere.
pub open spec fn is_hyphenated_uuid(s: Seq<char>) -> bool {
    &&& s.len() == 36
    &&& forall|i: int|
        0 <= i < 36 ==> if i == 8 || i == 13 || i == 18 || i == 23 {
            #[trigger] s[i] == '-'
        } else {
            is_lower_hex(s[i])
        }
}

/// A new random version 4 UUID, `uuid::Uuid::new_v4`, as its `Display`
/// writes it (the hyphenated lower-case form). Which one comes out is left
/// to chance.
#[verifier::external_body]
pub(crate) fn new_uuid() -> (r: String)
    ensures
        is_hyphenated_uuid(r@),
{
    uuid::Uuid::new_v4().to_string()
}

/// The present time in RFC 3339 form, `chrono::Utc::now().to_rfc3339()`.
/// Nothing is promised of it: it depends on the clock.
#[verifier::external_body]
pub(crate) fn now_rfc3339() -> (r: String) {
    chrono::Utc::now().to_rfc3339()
}

/// The name of the user running the process, `whoami::username()`.
/// Nothing is promised of it: it depends on the machine.
#[verifier::external_body]
pub(crate) fn system_username() -> (r: String) {
    whoami::username()
}

/// The user who acts: the e-mail address that `git config user.email`
/// printed (`git_email`, when it ran), trimmed, unless it is empty; else the
/// name of the user running the process.
pub fn current_user(git_email: Option<&str>) -> (r: String)
    ensures
        git_email matches Some(e) ==> (trim_spec(e@).len() > 0 ==> r@ == trim_spec(e@)),
{
    match git_email {
        Some(e) => {
            let t = trim(e);
            if t.as_str().unicode_len() > 0 {
                return t;
            }
            system_username()
        },
        None => system_username(),
    }
}

} // verus!
